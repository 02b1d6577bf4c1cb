//! Disconnected components: groups of files that no application root reaches.
use crate::order::{sorted_insert, strictly_sorted, texts_contain};
use crate::snapshot::Snapshot;
use crate::structural::graph::{
    cycle_size_for, edge_view, external_non_test_inbound_count, find_facts, is_production_fact, is_test_fact,
    reach_within, reachable_files, reverse_edges, reversed, sources, sources_of, step_from, targets, targets_of,
    StructuralGraph,
};
use crate::grouping::sorted_set;
use crate::structural::graph::{cycle_size_of, fact_index, outside_production_sources, step_bound};
use crate::structural::roles::{leverage_of, leverage_reasons_of, presentation_of};
use crate::structural::scoring::{dead_island_score_of, severity_of_score};
use crate::structural::utils::dedupe;
use crate::text::{dec, join};
use crate::structural::roles::{annotate_structural_leverage, structural_presentation_class};
use crate::structural::scoring::{dead_island_score, signal_severity};
use crate::structural::utils::{dedupe_strings_preserve_order, first_values, lower_text, to_ascii_lower};
use crate::structural::{
    FileFacts, HealthReport, StructuralDebtMetrics, StructuralDebtReport, StructuralLeverageClass, StructuralSignalClass,
    StructuralTrustTier,
};
use crate::text::{contains, contains_text, decimal, join_texts, phrase, push_line, starts_with, text_eq, Text};
use vstd::prelude::*;

verus! {

/// The non-test entry points, and the analysed non-test files tagged as
/// entries or serving as package indexes.
pub open spec fn primary_roots(snapshot: Snapshot, facts: Seq<FileFacts>) -> Set<Text> {
    Set::new(
        |p: Text|
            (exists|i: int|
                0 <= i < snapshot.entry_points@.len() && (#[trigger] snapshot.entry_points@[i]).file@ == p
                    && is_production_fact(facts, p)) || (exists|j: int|
                0 <= j < facts.len() && (#[trigger] facts[j]).path@ == p && (facts[j].has_entry_tag
                    || facts[j].is_package_index) && !facts[j].is_test),
    )
}

/// A non-test file that only tests depend on and that depends on something
/// or exposes public functions.
pub open spec fn is_zero_inbound_root(f: FileFacts, facts: Seq<FileFacts>, edges: Seq<(Text, Text)>) -> bool {
    &&& !f.is_test
    &&& forall|s: Text| #[trigger] sources_of(edges, f.path@).contains(s) ==> is_test_fact(facts, s)
    &&& (targets_of(edges, f.path@) != Set::<Text>::empty() || f.public_function_count > 0)
}

/// The files that only tests depend on (see `is_zero_inbound_root`).
pub open spec fn fallback_roots(facts: Seq<FileFacts>, edges: Seq<(Text, Text)>) -> Set<Text> {
    Set::new(
        |p: Text|
            exists|j: int| 0 <= j < facts.len() && (#[trigger] facts[j]).path@ == p && is_zero_inbound_root(facts[j], facts, edges),
    )
}

/// The application roots: the primary roots, or, when there are none, the
/// files that only tests depend on.
pub open spec fn app_root_set(snapshot: Snapshot, facts: Seq<FileFacts>, edges: Seq<(Text, Text)>) -> Set<Text> {
    if primary_roots(snapshot, facts) == Set::<Text>::empty() {
        fallback_roots(facts, edges)
    } else {
        primary_roots(snapshot, facts)
    }
}

fn zero_inbound_root(f: &FileFacts, all: &Vec<FileFacts>, g: &StructuralGraph) -> (r: bool)
    ensures
        r == is_zero_inbound_root(*f, all@, edge_view(g.edges@)),
{
    let ghost ev = edge_view(g.edges@);
    let path = f.path.as_str();
    let incoming = sources(&g.edges, path);
    let mut only_tests = true;
    let mut i: usize = 0;
    while i < incoming.len()
        invariant
            i <= incoming@.len(),
            only_tests == forall|k: int| 0 <= k < i ==> is_test_fact(all@, #[trigger] incoming.deep_view()[k]),
        decreases incoming@.len() - i,
    {
        let is_test_source = match find_facts(all, incoming[i].as_str()) {
            Some(k) => all[k].is_test,
            None => false,
        };
        assert(is_test_source == is_test_fact(all@, incoming.deep_view()[i as int]));
        if !is_test_source {
            only_tests = false;
        }
        i = i + 1;
    }
    assert(only_tests == forall|s: Text| #[trigger] sources_of(ev, path@).contains(s) ==> is_test_fact(all@, s)) by {
        if only_tests {
            assert forall|s: Text| #[trigger] sources_of(ev, path@).contains(s) implies is_test_fact(all@, s) by {
                assert(incoming.deep_view().to_set().contains(s));
                let k = choose|k: int| 0 <= k < incoming.deep_view().len() && incoming.deep_view()[k] == s;
                assert(is_test_fact(all@, incoming.deep_view()[k]));
            }
        } else {
            let k = choose|k: int| 0 <= k < incoming@.len() && !is_test_fact(all@, #[trigger] incoming.deep_view()[k]);
            assert(incoming.deep_view().to_set().contains(incoming.deep_view()[k]));
        }
    }
    let outgoing = targets(&g.edges, path);
    proof {
        if outgoing@.len() > 0 {
            assert(outgoing.deep_view().to_set().contains(outgoing.deep_view()[0]));
        } else {
            assert(outgoing.deep_view().to_set() =~= Set::<Text>::empty());
        }
    }
    !f.is_test && only_tests && (outgoing.len() > 0 || f.public_function_count > 0)
}

/// The application roots (see `app_root_set`), in increasing order.
pub fn application_root_files(snapshot: &Snapshot, facts: &Vec<FileFacts>, g: &StructuralGraph) -> (r: Vec<String>)
    ensures
        strictly_sorted(r.deep_view()),
        r.deep_view().to_set() == app_root_set(*snapshot, facts@, edge_view(g.edges@)),
{
    let ghost ev = edge_view(g.edges@);
    let ghost eps = snapshot.entry_points@;
    let mut roots: Vec<String> = Vec::new();
    assert(roots.deep_view().to_set() =~= Set::<Text>::empty());
    let mut i: usize = 0;
    while i < snapshot.entry_points.len()
        invariant
            eps == snapshot.entry_points@,
            i <= eps.len(),
            strictly_sorted(roots.deep_view()),
            roots.deep_view().to_set() == Set::new(
                |p: Text| exists|q: int| 0 <= q < i && (#[trigger] eps[q]).file@ == p && is_production_fact(facts@, p),
            ),
        decreases eps.len() - i,
    {
        let path = snapshot.entry_points[i].file.as_str();
        let ghost before = roots.deep_view().to_set();
        let production = match find_facts(facts, path) {
            Some(k) => !facts[k].is_test,
            None => false,
        };
        assert(production == is_production_fact(facts@, path@));
        if production {
            sorted_insert(&mut roots, path);
        }
        assert(roots.deep_view().to_set() =~= Set::new(
            |p: Text| exists|q: int| 0 <= q < i + 1 && (#[trigger] eps[q]).file@ == p && is_production_fact(facts@, p),
        )) by {
            assert(eps[i as int].file@ == path@);
        }
        i = i + 1;
    }
    let ghost entry_part = roots.deep_view().to_set();
    let mut j: usize = 0;
    while j < facts.len()
        invariant
            j <= facts@.len(),
            strictly_sorted(roots.deep_view()),
            roots.deep_view().to_set() == entry_part + Set::new(
                |p: Text|
                    exists|q: int|
                        0 <= q < j && (#[trigger] facts@[q]).path@ == p && (facts@[q].has_entry_tag
                            || facts@[q].is_package_index) && !facts@[q].is_test,
            ),
        decreases facts@.len() - j,
    {
        let f = &facts[j];
        if (f.has_entry_tag || f.is_package_index) && !f.is_test {
            sorted_insert(&mut roots, f.path.as_str());
        }
        assert(roots.deep_view().to_set() =~= entry_part + Set::new(
            |p: Text|
                exists|q: int|
                    0 <= q < j + 1 && (#[trigger] facts@[q]).path@ == p && (facts@[q].has_entry_tag
                        || facts@[q].is_package_index) && !facts@[q].is_test,
        ));
        j = j + 1;
    }
    assert(roots.deep_view().to_set() =~= primary_roots(*snapshot, facts@));
    if roots.len() > 0 {
        assert(roots.deep_view().to_set().contains(roots.deep_view()[0]));
        return roots;
    }
    assert(roots.deep_view().to_set() =~= Set::<Text>::empty());
    let mut j: usize = 0;
    while j < facts.len()
        invariant
            j <= facts@.len(),
            ev == edge_view(g.edges@),
            strictly_sorted(roots.deep_view()),
            roots.deep_view().to_set() == Set::new(
                |p: Text|
                    exists|q: int| 0 <= q < j && (#[trigger] facts@[q]).path@ == p && is_zero_inbound_root(facts@[q], facts@, ev),
            ),
        decreases facts@.len() - j,
    {
        let f = &facts[j];
        if zero_inbound_root(f, facts, g) {
            sorted_insert(&mut roots, f.path.as_str());
        }
        assert(roots.deep_view().to_set() =~= Set::new(
            |p: Text|
                exists|q: int| 0 <= q < j + 1 && (#[trigger] facts@[q]).path@ == p && is_zero_inbound_root(facts@[q], facts@, ev),
        ));
        j = j + 1;
    }
    assert(roots.deep_view().to_set() =~= fallback_roots(facts@, ev));
    roots
}

/// The edges in both directions.
pub open spec fn undirected_view(edges: Seq<(Text, Text)>) -> Seq<(Text, Text)> {
    reversed(edges) + edges
}

/// The files weakly connected to `p`: reachable from it along the edges in
/// either direction (at most one step per edge, plus one, suffices).
pub open spec fn component_set(ue: Seq<(Text, Text)>, p: Text) -> Set<Text> {
    reach_within(ue, set![p], (1 + ue.len()) as nat)
}

/// The components found from fact `i` on, given the files already visited:
/// each non-test analysed file not yet visited starts one, listed in order.
pub open spec fn components_from(facts: Seq<FileFacts>, ue: Seq<(Text, Text)>, i: int, visited: Set<Text>) -> Seq<
    Seq<Text>,
>
    decreases facts.len() - i,
{
    if i < 0 || i >= facts.len() {
        Seq::empty()
    } else if !facts[i].is_test && !visited.contains(facts[i].path@) {
        let c = sorted_set(component_set(ue, facts[i].path@));
        seq![c] + components_from(facts, ue, i + 1, visited + c.to_set())
    } else {
        components_from(facts, ue, i + 1, visited)
    }
}

/// The weakly connected components of the graph that start from a non-test
/// analysed file, in file order, each in increasing order.
pub open spec fn weak_components_of(facts: Seq<FileFacts>, edges: Seq<(Text, Text)>) -> Seq<Seq<Text>> {
    components_from(facts, undirected_view(edges), 0, Set::empty())
}

/// The weakly connected components of the graph (see `weak_components_of`).
pub fn weak_components(facts: &Vec<FileFacts>, g: &StructuralGraph) -> (r: Vec<Vec<String>>)
    requires
        g.edges@.len() < usize::MAX / 8,
    ensures
        r.deep_view() == weak_components_of(facts@, edge_view(g.edges@)),
        forall|k: int| 0 <= k < r.deep_view().len() ==> strictly_sorted(#[trigger] r.deep_view()[k]),
{
    let ghost ev = edge_view(g.edges@);
    let mut undirected = reverse_edges(&g.edges);
    let mut e: usize = 0;
    while e < g.edges.len()
        invariant
            ev == edge_view(g.edges@),
            e <= g.edges@.len(),
            edge_view(undirected@) == reversed(ev) + ev.take(e as int),
            undirected@.len() == g.edges@.len() + e,
        decreases g.edges@.len() - e,
    {
        let ghost before = edge_view(undirected@);
        undirected.push((g.edges[e].0.clone(), g.edges[e].1.clone()));
        assert(edge_view(undirected@) =~= before.push(ev[e as int]));
        assert(reversed(ev) + ev.take(e + 1) =~= (reversed(ev) + ev.take(e as int)).push(ev[e as int]));
        e = e + 1;
    }
    assert(ev.take(ev.len() as int) =~= ev);
    let ghost ue = undirected_view(ev);
    assert(edge_view(undirected@) == ue);
    let mut visited: Vec<String> = Vec::new();
    let mut components: Vec<Vec<String>> = Vec::new();
    assert(visited.deep_view().to_set() =~= Set::<Text>::empty());
    assert(components.deep_view() + components_from(facts@, ue, 0, visited.deep_view().to_set()) =~= weak_components_of(
        facts@,
        ev,
    ));
    let mut i: usize = 0;
    while i < facts.len()
        invariant
            ue == edge_view(undirected@),
            undirected@.len() < usize::MAX / 4,
            i <= facts@.len(),
            strictly_sorted(visited.deep_view()),
            components.deep_view() + components_from(facts@, ue, i as int, visited.deep_view().to_set())
                == weak_components_of(facts@, ev),
            forall|k: int| 0 <= k < components.deep_view().len() ==> strictly_sorted(#[trigger] components.deep_view()[k]),
        decreases facts@.len() - i,
    {
        let f = &facts[i];
        let ghost seen = visited.deep_view().to_set();
        let ghost done = components.deep_view();
        if !f.is_test && !texts_contain(&visited, f.path.as_str()) {
            let mut root: Vec<String> = Vec::new();
            push_line(&mut root, f.path.clone());
            assert(root.deep_view() =~= seq![f.path@]);
            assert(seq![f.path@].to_set() =~= set![f.path@]) by {
                assert(seq![f.path@][0] == f.path@);
                assert forall|x: Text| seq![f.path@].to_set().contains(x) implies x == f.path@ by {
                    let q = choose|q: int| 0 <= q < seq![f.path@].len() && seq![f.path@][q] == x;
                }
            }
            let component = reachable_files(&undirected, &root);
            proof {
                crate::grouping::lemma_sorted_set_of(component.deep_view());
                assert(component.deep_view() == sorted_set(component_set(ue, f.path@)));
            }
            let mut k: usize = 0;
            while k < component.len()
                invariant
                    k <= component@.len(),
                    strictly_sorted(visited.deep_view()),
                    visited.deep_view().to_set() == seen + component.deep_view().take(k as int).to_set(),
                decreases component@.len() - k,
            {
                sorted_insert(&mut visited, component[k].as_str());
                assert(component.deep_view().take(k + 1) =~= component.deep_view().take(k as int).push(
                    component.deep_view()[k as int],
                ));
                proof {
                    component.deep_view().take(k as int).lemma_push_to_set_commute(component.deep_view()[k as int]);
                }
                assert(visited.deep_view().to_set() =~= seen + component.deep_view().take(k + 1).to_set());
                k = k + 1;
            }
            assert(component.deep_view().take(component@.len() as int) =~= component.deep_view());
            let ghost cv = component.deep_view();
            components.push(component);
            assert(components.deep_view() =~= done.push(cv));
            assert(strictly_sorted(cv));
            assert(done + components_from(facts@, ue, i as int, seen) == done + (seq![cv] + components_from(
                facts@,
                ue,
                i + 1,
                seen + cv.to_set(),
            )));
            assert(done.push(cv) + components_from(facts@, ue, i + 1, seen + cv.to_set()) =~= done + (seq![cv]
                + components_from(facts@, ue, i + 1, seen + cv.to_set())));
        } else {
            assert(components_from(facts@, ue, i as int, seen) == components_from(facts@, ue, i + 1, seen));
        }
        i = i + 1;
    }
    assert(components_from(facts@, ue, facts@.len() as int, visited.deep_view().to_set()) =~= Seq::<Seq<Text>>::empty());
    assert(components.deep_view() + Seq::<Seq<Text>>::empty() =~= components.deep_view());
    components
}

/// A support path (repository metadata, docs, examples, fixtures, tests).
pub open spec fn is_support_path(lowered: Text) -> bool {
    crate::structural::roles::sw(lowered, ".github/"@) || crate::structural::roles::sw(lowered, "docs/"@)
        || crate::structural::roles::sw(lowered, "examples/"@) || crate::structural::roles::sw(lowered, "samples/"@)
        || crate::structural::roles::sw(lowered, "fixtures/"@) || crate::structural::roles::sw(lowered, "test/"@)
        || crate::structural::roles::sw(lowered, "tests/"@) || crate::structural::roles::sw(lowered, "testdata/"@)
        || contains_text(lowered, "/examples/"@) || contains_text(lowered, "/samples/"@) || contains_text(
        lowered,
        "/fixtures/"@,
    ) || contains_text(lowered, "/test/"@) || contains_text(lowered, "/tests/"@) || contains_text(lowered, "/testdata/"@)
}

/// Whether a path is a support path, ignoring ASCII case (see `is_support_path`).
pub fn dead_island_support_path(path: &str) -> (r: bool)
    ensures
        r == is_support_path(lower_text(path@)),
{
    let lowered = to_ascii_lower(path);
    let l = lowered.as_str();
    starts_with(l, ".github/") || starts_with(l, "docs/") || starts_with(l, "examples/") || starts_with(l, "samples/")
        || starts_with(l, "fixtures/") || starts_with(l, "test/") || starts_with(l, "tests/") || starts_with(l, "testdata/")
        || contains(l, "/examples/") || contains(l, "/samples/") || contains(l, "/fixtures/") || contains(l, "/test/")
        || contains(l, "/tests/") || contains(l, "/testdata/")
}

/// One of the component's files is in `s`.
pub open spec fn any_member_in(c: Seq<Text>, s: Set<Text>) -> bool {
    exists|k: int| 0 <= k < c.len() && s.contains(#[trigger] c[k])
}

/// Every file of the component is a support file.
pub open spec fn all_support_paths(c: Seq<Text>) -> bool {
    forall|k: int| 0 <= k < c.len() ==> is_support_path(lower_text(#[trigger] c[k]))
}

/// One of the component's analysed files exposes public functions.
pub open spec fn exposes_public(c: Seq<Text>, facts: Seq<FileFacts>) -> bool {
    exists|k: int|
        0 <= k < c.len() && (match fact_index(facts, #[trigger] c[k]) {
            Some(i) => facts[i].public_function_count > 0,
            None => false,
        })
}

/// One of the component's analysed files is an entry or a package index.
pub open spec fn has_entry_or_package_file(c: Seq<Text>, facts: Seq<FileFacts>) -> bool {
    exists|k: int|
        0 <= k < c.len() && (match fact_index(facts, #[trigger] c[k]) {
            Some(i) => facts[i].is_package_index || facts[i].has_entry_tag,
            None => false,
        })
}

/// The largest listed cycle through one of the component's files.
pub open spec fn largest_cycle(c: Seq<Text>, cycles: Seq<Seq<Text>>) -> nat
    decreases c.len(),
{
    if c.len() == 0 {
        0
    } else {
        let prev = largest_cycle(c.drop_last(), cycles);
        let s = cycle_size_of(cycles, c.last());
        if s > prev {
            s
        } else {
            prev
        }
    }
}

/// The summed lines of the component's analysed files, saturating at `usize::MAX`.
pub open spec fn component_lines_of(c: Seq<Text>, facts: Seq<FileFacts>) -> usize
    decreases c.len(),
{
    if c.len() == 0 {
        0
    } else {
        let prev = component_lines_of(c.drop_last(), facts);
        let v: usize = match fact_index(facts, c.last()) {
            Some(i) => facts[i].lines,
            None => 0,
        };
        if prev > usize::MAX - v {
            usize::MAX
        } else {
            (prev + v) as usize
        }
    }
}

/// A component is reported as a dead island: no application root reaches
/// it, not all its files are support files, it exposes no public surface,
/// holds no entry or package index, no outside non-test file depends on it,
/// it has two or more files or lies on a cycle of two or more, and its sizes
/// fit the score.
pub open spec fn island_kept(
    c: Seq<Text>,
    facts: Seq<FileFacts>,
    edges: Seq<(Text, Text)>,
    app_reach: Set<Text>,
    cycles: Seq<Seq<Text>>,
) -> bool {
    let cycle = largest_cycle(c, cycles);
    &&& !any_member_in(c, app_reach)
    &&& !all_support_paths(c)
    &&& !exposes_public(c, facts)
    &&& !has_entry_or_package_file(c, facts)
    &&& outside_production_sources(facts, edges, c.to_set()).len() == 0
    &&& !(c.len() < 2 && cycle < 2)
    &&& (c.len() as usize as u32) * 900 <= u32::MAX
    &&& (cycle as usize as u32) * 700 <= u32::MAX
}

/// The components that are reported, in order.
pub open spec fn kept_islands(
    comps: Seq<Seq<Text>>,
    facts: Seq<FileFacts>,
    edges: Seq<(Text, Text)>,
    app_reach: Set<Text>,
    cycles: Seq<Seq<Text>>,
) -> Seq<Seq<Text>>
    decreases comps.len(),
{
    if comps.len() == 0 {
        Seq::empty()
    } else {
        let prev = kept_islands(comps.drop_last(), facts, edges, app_reach, cycles);
        if island_kept(comps.last(), facts, edges, app_reach, cycles) {
            prev.push(comps.last())
        } else {
            prev
        }
    }
}

/// The analysed test files.
pub open spec fn test_root_set(facts: Seq<FileFacts>) -> Set<Text> {
    Set::new(|p: Text| exists|j: int| 0 <= j < facts.len() && (#[trigger] facts[j]).path@ == p && facts[j].is_test)
}

/// The files reachable from a set of roots within the reachability bound.
pub open spec fn reach_from(edges: Seq<(String, String)>, roots: Set<Text>) -> Set<Text> {
    reach_within(edge_view(edges), roots, step_bound(sorted_set(roots), edges))
}

/// `r` is the dead-island report of component `c`.
pub open spec fn is_dead_island_report(
    r: StructuralDebtReport,
    c: Seq<Text>,
    lines: usize,
    cycle: usize,
    inbound: usize,
    public: usize,
    from_tests: bool,
) -> bool {
    let score = dead_island_score_of(c.len() as usize, lines, cycle, from_tests);
    let kind = "dead_island"@;
    let first = if c.len() > 0 { c[0] } else { Seq::empty() };
    let sample = c.take(if c.len() < 3 { c.len() as int } else { 3 });
    &&& r.kind@ == kind
    &&& r.trust_tier == StructuralTrustTier::Watchpoint
    &&& r.presentation_class == presentation_of(kind, first, StructuralTrustTier::Watchpoint, Seq::empty())
    &&& r.leverage_class == leverage_of(kind, StructuralTrustTier::Watchpoint, r.presentation_class, Seq::empty(), r.metrics)
    &&& r.scope@ == "dead_island:"@ + join(c, "|"@)
    &&& r.signal_class == (if from_tests {
        StructuralSignalClass::Watchpoint
    } else {
        StructuralSignalClass::Debt
    })
    &&& r.signal_families.deep_view() == seq!["reachability"@, "staleness"@]
    &&& r.score_0_10000 == score
    &&& r.severity == severity_of_score(score)
    &&& r.summary@ == "Files "@ + join(c, ", "@) + (if from_tests {
        " form an internally connected component that is not reachable from app roots"@
    } else {
        " form an internally connected component that is disconnected from the app-reachable graph"@
    })
    &&& r.impact@ == (if from_tests {
        "A test-only internal component may be stale production code or an accidentally disconnected subsystem."@
    } else {
        "A disconnected internal component adds maintenance noise and can hide obsolete or unsupported code paths."@
    })
    &&& r.files.deep_view() == c
    &&& r.role_tags@.len() == 0
    &&& r.evidence.deep_view() == dedupe(
        seq![
            "component file count: "@ + dec(c.len()),
            "component lines: "@ + dec(lines as nat),
            "largest internal cycle: "@ + dec(cycle as nat),
            "external inbound references from app graph: "@ + dec(inbound as nat),
            "reachable from tests: "@ + (if from_tests { "true"@ } else { "false"@ }),
            "sample files: "@ + join(sample, ", "@),
        ],
    )
    &&& r.inspection_focus.deep_view() == seq![
        "inspect whether this component is intentionally disconnected or stale"@,
        "inspect whether it should be deleted, archived, or wired through an explicit root"@,
    ]
    &&& r.candidate_split_axes.deep_view() == seq!["reachable entry surface"@, "public contract boundary"@]
    &&& r.related_surfaces.deep_view() == c.take(if c.len() < 5 { c.len() as int } else { 5 })
    &&& r.cut_candidates@.len() == 0
    &&& r.metrics == (StructuralDebtMetrics {
        file_count: Some(c.len() as usize),
        line_count: Some(lines),
        cycle_size: Some(cycle),
        inbound_reference_count: Some(inbound),
        public_surface_count: Some(public),
        reachable_from_tests: Some(from_tests),
        cut_candidate_count: Some(0usize),
        largest_cycle_after_best_cut: Some(cycle),
        ..crate::structural::no_metrics()
    })
    &&& r.leverage_reasons.deep_view() == leverage_reasons_of(r.leverage_class, kind, Seq::empty(), r.metrics)
}

fn any_in(component: &Vec<String>, set: &Vec<String>) -> (r: bool)
    ensures
        r == any_member_in(component.deep_view(), set.deep_view().to_set()),
{
    let mut i: usize = 0;
    while i < component.len()
        invariant
            i <= component@.len(),
            forall|k: int| 0 <= k < i ==> !set.deep_view().to_set().contains(#[trigger] component.deep_view()[k]),
        decreases component@.len() - i,
    {
        if texts_contain(set, component[i].as_str()) {
            assert(set.deep_view().to_set().contains(component.deep_view()[i as int]));
            return true;
        }
        assert(!set.deep_view().contains(component.deep_view()[i as int]));
        i = i + 1;
    }
    false
}

fn all_support(component: &Vec<String>) -> (r: bool)
    ensures
        r == all_support_paths(component.deep_view()),
{
    let mut i: usize = 0;
    while i < component.len()
        invariant
            i <= component@.len(),
            forall|k: int| 0 <= k < i ==> is_support_path(lower_text(#[trigger] component.deep_view()[k])),
        decreases component@.len() - i,
    {
        if !dead_island_support_path(component[i].as_str()) {
            assert(!is_support_path(lower_text(component.deep_view()[i as int])));
            return false;
        }
        i = i + 1;
    }
    true
}

fn has_public_surface(component: &Vec<String>, facts: &Vec<FileFacts>) -> (r: bool)
    ensures
        r == exposes_public(component.deep_view(), facts@),
{
    let mut i: usize = 0;
    while i < component.len()
        invariant
            i <= component@.len(),
            forall|k: int|
                0 <= k < i ==> !(match fact_index(facts@, #[trigger] component.deep_view()[k]) {
                    Some(j) => facts@[j].public_function_count > 0,
                    None => false,
                }),
        decreases component@.len() - i,
    {
        match find_facts(facts, component[i].as_str()) {
            Some(k) => {
                if facts[k].public_function_count > 0 {
                    assert(fact_index(facts@, component.deep_view()[i as int]) == Some(k as int));
                    return true;
                }
            },
            None => {},
        }
        i = i + 1;
    }
    false
}

fn has_entry_or_package(component: &Vec<String>, facts: &Vec<FileFacts>) -> (r: bool)
    ensures
        r == has_entry_or_package_file(component.deep_view(), facts@),
{
    let mut i: usize = 0;
    while i < component.len()
        invariant
            i <= component@.len(),
            forall|k: int|
                0 <= k < i ==> !(match fact_index(facts@, #[trigger] component.deep_view()[k]) {
                    Some(j) => facts@[j].is_package_index || facts@[j].has_entry_tag,
                    None => false,
                }),
        decreases component@.len() - i,
    {
        match find_facts(facts, component[i].as_str()) {
            Some(k) => {
                if facts[k].is_package_index || facts[k].has_entry_tag {
                    assert(fact_index(facts@, component.deep_view()[i as int]) == Some(k as int));
                    return true;
                }
            },
            None => {},
        }
        i = i + 1;
    }
    false
}

fn component_lines(component: &Vec<String>, facts: &Vec<FileFacts>) -> (n: usize)
    ensures
        n == component_lines_of(component.deep_view(), facts@),
{
    let ghost cv = component.deep_view();
    let mut n: usize = 0;
    let mut i: usize = 0;
    assert(cv.take(0) =~= Seq::<Text>::empty());
    while i < component.len()
        invariant
            cv == component.deep_view(),
            i <= cv.len(),
            n == component_lines_of(cv.take(i as int), facts@),
        decreases cv.len() - i,
    {
        assert(cv.take(i + 1).drop_last() =~= cv.take(i as int));
        assert(cv.take(i + 1).last() == cv[i as int]);
        let v: usize = match find_facts(facts, component[i].as_str()) {
            Some(k) => facts[k].lines,
            None => 0,
        };
        n = if n > usize::MAX - v {
            usize::MAX
        } else {
            n + v
        };
        i = i + 1;
    }
    assert(cv.take(cv.len() as int) =~= cv);
    n
}

fn largest_cycle_of(component: &Vec<String>, cycles: &Vec<Vec<String>>) -> (n: usize)
    ensures
        n == largest_cycle(component.deep_view(), cycles.deep_view()),
{
    let ghost cv = component.deep_view();
    let mut n: usize = 0;
    let mut k: usize = 0;
    assert(cv.take(0) =~= Seq::<Text>::empty());
    while k < component.len()
        invariant
            cv == component.deep_view(),
            k <= cv.len(),
            n == largest_cycle(cv.take(k as int), cycles.deep_view()),
        decreases cv.len() - k,
    {
        assert(cv.take(k + 1).drop_last() =~= cv.take(k as int));
        assert(cv.take(k + 1).last() == cv[k as int]);
        let s = cycle_size_for(cycles, component[k].as_str());
        if s > n {
            n = s;
        }
        k = k + 1;
    }
    assert(cv.take(cv.len() as int) =~= cv);
    n
}

fn dead_island_report(
    component: &Vec<String>,
    total_lines: usize,
    cycle_size: usize,
    inbound: usize,
    public: usize,
    from_tests: bool,
) -> (r: StructuralDebtReport)
    requires
        (component@.len() as u32) * 900 <= u32::MAX,
        (cycle_size as u32) * 700 <= u32::MAX,
    ensures
        is_dead_island_report(r, component.deep_view(), total_lines, cycle_size, inbound, public, from_tests),
{
    let ghost c = component.deep_view();
    let score = dead_island_score(component.len(), total_lines, cycle_size, from_tests);
    let sample = first_values(component, 3);
    let sample_text = join_texts(&sample, ", ");
    let mut evidence: Vec<String> = Vec::new();
    push_line(&mut evidence, labelled("component file count: ", component.len() as u64));
    push_line(&mut evidence, labelled("component lines: ", total_lines as u64));
    push_line(&mut evidence, labelled("largest internal cycle: ", cycle_size as u64));
    push_line(&mut evidence, labelled("external inbound references from app graph: ", inbound as u64));
    let mut t = "reachable from tests: ".to_string();
    t.append(if from_tests {
        "true"
    } else {
        "false"
    });
    push_line(&mut evidence, t);
    let mut s = "sample files: ".to_string();
    s.append(sample_text.as_str());
    push_line(&mut evidence, s);
    assert(evidence.deep_view() =~= seq![
        "component file count: "@ + dec(c.len()),
        "component lines: "@ + dec(total_lines as nat),
        "largest internal cycle: "@ + dec(cycle_size as nat),
        "external inbound references from app graph: "@ + dec(inbound as nat),
        "reachable from tests: "@ + (if from_tests { "true"@ } else { "false"@ }),
        "sample files: "@ + join(c.take(if c.len() < 3 { c.len() as int } else { 3 }), ", "@),
    ]);
    let evidence = dedupe_strings_preserve_order(&evidence);
    let mut scope = "dead_island:".to_string();
    let joined = join_texts(component, "|");
    scope.append(joined.as_str());
    let listed = join_texts(component, ", ");
    let mut summary = "Files ".to_string();
    summary.append(listed.as_str());
    if from_tests {
        summary.append(" form an internally connected component that is not reachable from app roots");
    } else {
        summary.append(" form an internally connected component that is disconnected from the app-reachable graph");
    }
    let impact = if from_tests {
        "A test-only internal component may be stale production code or an accidentally disconnected subsystem.".to_string()
    } else {
        "A disconnected internal component adds maintenance noise and can hide obsolete or unsupported code paths.".to_string()
    };
    let first = if component.len() > 0 {
        component[0].clone()
    } else {
        String::new()
    };
    let no_tags: Vec<String> = Vec::new();
    assert(no_tags.deep_view() =~= Seq::<Text>::empty());
    let presentation = structural_presentation_class("dead_island", first.as_str(), StructuralTrustTier::Watchpoint, &no_tags);
    let mut focus: Vec<String> = Vec::new();
    push_line(&mut focus, "inspect whether this component is intentionally disconnected or stale".to_string());
    push_line(&mut focus, "inspect whether it should be deleted, archived, or wired through an explicit root".to_string());
    assert(focus.deep_view() =~= seq![
        "inspect whether this component is intentionally disconnected or stale"@,
        "inspect whether it should be deleted, archived, or wired through an explicit root"@,
    ]);
    let mut axes: Vec<String> = Vec::new();
    push_line(&mut axes, "reachable entry surface".to_string());
    push_line(&mut axes, "public contract boundary".to_string());
    assert(axes.deep_view() =~= seq!["reachable entry surface"@, "public contract boundary"@]);
    let mut families: Vec<String> = Vec::new();
    push_line(&mut families, "reachability".to_string());
    push_line(&mut families, "staleness".to_string());
    assert(families.deep_view() =~= seq!["reachability"@, "staleness"@]);
    let files = crate::clone_groups::copy_strings(component);
    assert(files.deep_view() =~= c);
    let mut report = StructuralDebtReport {
        kind: "dead_island".to_string(),
        trust_tier: StructuralTrustTier::Watchpoint,
        presentation_class: presentation,
        leverage_class: StructuralLeverageClass::SecondaryCleanup,
        scope,
        signal_class: if from_tests {
            StructuralSignalClass::Watchpoint
        } else {
            StructuralSignalClass::Debt
        },
        signal_families: families,
        severity: signal_severity(score),
        score_0_10000: score,
        summary,
        impact,
        files,
        role_tags: Vec::new(),
        leverage_reasons: Vec::new(),
        evidence,
        inspection_focus: focus,
        candidate_split_axes: axes,
        related_surfaces: first_values(component, 5),
        cut_candidates: Vec::new(),
        metrics: StructuralDebtMetrics {
            file_count: Some(component.len()),
            line_count: Some(total_lines),
            function_count: None,
            fan_in: None,
            fan_out: None,
            instability_0_10000: None,
            dead_symbol_count: None,
            dead_line_count: None,
            cycle_size: Some(cycle_size),
            max_complexity: None,
            inbound_reference_count: Some(inbound),
            public_surface_count: Some(public),
            reachable_from_tests: Some(from_tests),
            cut_candidate_count: Some(0),
            largest_cycle_after_best_cut: Some(cycle_size),
            guardrail_test_count: None,
            role_count: None,
        },
    };
    assert(report.role_tags.deep_view() =~= Seq::<Text>::empty());
    annotate_structural_leverage(&mut report);
    report
}

/// `label` followed by the decimal form of `n`.
fn labelled(label: &str, n: u64) -> (r: String)
    ensures
        r@ == label@ + dec(n as nat),
{
    let mut r = label.to_string();
    let d = decimal(n);
    r.append(d.as_str());
    r
}

/// The analysed test files, in increasing order.
fn test_root_files(facts: &Vec<FileFacts>) -> (r: Vec<String>)
    ensures
        strictly_sorted(r.deep_view()),
        r.deep_view().to_set() == test_root_set(facts@),
{
    let mut roots: Vec<String> = Vec::new();
    assert(roots.deep_view().to_set() =~= Set::<Text>::empty());
    let mut i: usize = 0;
    while i < facts.len()
        invariant
            i <= facts@.len(),
            strictly_sorted(roots.deep_view()),
            roots.deep_view().to_set() == Set::new(
                |p: Text| exists|j: int| 0 <= j < i && (#[trigger] facts@[j]).path@ == p && facts@[j].is_test,
            ),
        decreases facts@.len() - i,
    {
        if facts[i].is_test {
            sorted_insert(&mut roots, facts[i].path.as_str());
        }
        assert(roots.deep_view().to_set() =~= Set::new(
            |p: Text| exists|j: int| 0 <= j < i + 1 && (#[trigger] facts@[j]).path@ == p && facts@[j].is_test,
        ));
        i = i + 1;
    }
    assert(roots.deep_view().to_set() =~= test_root_set(facts@));
    roots
}

/// The size of a set drawn from the given files is at most their number.
proof fn lemma_sorted_subset_len(l: Seq<Text>, from: Seq<Text>)
    requires
        strictly_sorted(l),
        l.to_set().subset_of(from.to_set()),
    ensures
        l.len() <= from.len(),
{
    crate::order::lemma_sorted_no_duplicates(l);
    l.unique_seq_to_set();
    from.lemma_cardinality_of_set();
    vstd::set_lib::lemma_len_subset(l.to_set(), from.to_set());
}

/// The dead-island reports: none without application roots; else one per
/// kept island, in order.
pub open spec fn dead_island_reports_of(r: Seq<StructuralDebtReport>, snapshot: Snapshot, health: HealthReport, facts: Seq<FileFacts>, g: StructuralGraph) -> bool {
    let ev = edge_view(g.edges@);
    let roots = app_root_set(snapshot, facts, ev);
    let kept = kept_islands(
        weak_components_of(facts, ev),
        facts,
        ev,
        reach_from(g.edges@, roots),
        health.circular_dep_files.deep_view(),
    );
    let test_reach = reach_from(g.edges@, test_root_set(facts));
    &&& roots == Set::<Text>::empty() ==> r.len() == 0
    &&& roots != Set::<Text>::empty() ==> {
        &&& r.len() == kept.len()
        &&& forall|k: int|
            0 <= k < kept.len() ==> is_dead_island_report(
                #[trigger] r[k],
                kept[k],
                component_lines_of(kept[k], facts),
                largest_cycle(kept[k], health.circular_dep_files.deep_view()) as usize,
                0,
                0,
                any_member_in(kept[k], test_reach),
            )
    }
}

/// The edge from `e`'s end back to its start is an edge.
pub open spec fn has_reverse(ue: Seq<(Text, Text)>, e: (Text, Text)) -> bool {
    exists|j: int| 0 <= j < ue.len() && ue[j] == (e.1, e.0)
}

/// Each edge's reverse is an edge too.
pub open spec fn symmetric_edges(ue: Seq<(Text, Text)>) -> bool {
    forall|i: int| 0 <= i < ue.len() ==> has_reverse(ue, #[trigger] ue[i])
}

/// A set of files that no edge leaves.
pub open spec fn closed_under(ue: Seq<(Text, Text)>, c: Set<Text>) -> bool {
    step_from(ue, c).subset_of(c)
}

proof fn lemma_undirected_symmetric(edges: Seq<(Text, Text)>)
    ensures
        symmetric_edges(undirected_view(edges)),
{
    let ue = undirected_view(edges);
    let n = edges.len() as int;
    assert forall|i: int| 0 <= i < ue.len() implies has_reverse(ue, #[trigger] ue[i]) by {
        if i < n {
            assert(ue[i] == (edges[i].1, edges[i].0));
            assert(ue[n + i] == edges[i]);
        } else {
            assert(ue[i] == edges[i - n]);
            assert(ue[i - n] == (edges[i - n].1, edges[i - n].0));
        }
    }
}

/// A file from which a file of a closed set is reached lies in the set,
/// when every edge has its reverse.
proof fn lemma_reached_back(ue: Seq<(Text, Text)>, c: Set<Text>, p: Text, k: nat, y: Text)
    requires
        symmetric_edges(ue),
        closed_under(ue, c),
        reach_within(ue, set![p], k).contains(y),
        c.contains(y),
    ensures
        c.contains(p),
    decreases k,
{
    if k == 0 {
        assert(set![p].contains(y));
    } else {
        let prev = reach_within(ue, set![p], (k - 1) as nat);
        if prev.contains(y) {
            lemma_reached_back(ue, c, p, (k - 1) as nat, y);
        } else {
            assert(step_from(ue, prev).contains(y));
            let i = choose|i: int| 0 <= i < ue.len() && prev.contains((#[trigger] ue[i]).0) && ue[i].1 == y;
            let z = ue[i].0;
            assert(has_reverse(ue, ue[i]));
            let j = choose|j: int| 0 <= j < ue.len() && ue[j] == (ue[i].1, ue[i].0);
            assert(ue[j].0 == y && ue[j].1 == z);
            assert(step_from(ue, c).contains(z));
            lemma_reached_back(ue, c, p, (k - 1) as nat, z);
        }
    }
}

/// The ends of the edges.
pub open spec fn edge_ends(ue: Seq<(Text, Text)>) -> Set<Text> {
    ue.map_values(|e: (Text, Text)| e.1).to_set()
}

proof fn lemma_reach_bounded(ue: Seq<(Text, Text)>, q: Text, n: nat)
    ensures
        reach_within(ue, set![q], n).subset_of(set![q].union(edge_ends(ue))),
    decreases n,
{
    if n > 0 {
        lemma_reach_bounded(ue, q, (n - 1) as nat);
        let prev = reach_within(ue, set![q], (n - 1) as nat);
        assert forall|t: Text| step_from(ue, prev).contains(t) implies edge_ends(ue).contains(t) by {
            let i = choose|i: int| 0 <= i < ue.len() && prev.contains((#[trigger] ue[i]).0) && ue[i].1 == t;
            assert(ue.map_values(|e: (Text, Text)| e.1)[i] == t);
        }
    }
}

proof fn lemma_reach_grows(ue: Seq<(Text, Text)>, q: Text, n: nat)
    requires
        forall|j: nat| j < n ==> #[trigger] reach_within(ue, set![q], j) != reach_within(ue, set![q], j + 1),
    ensures
        reach_within(ue, set![q], n).finite(),
        reach_within(ue, set![q], n).len() >= n + 1,
    decreases n,
{
    let bound = set![q].union(edge_ends(ue));
    lemma_reach_bounded(ue, q, n);
    assert(bound.finite());
    vstd::set_lib::lemma_len_subset(reach_within(ue, set![q], n), bound);
    if n == 0 {
        assert(set![q].len() == 1);
    } else {
        let m = (n - 1) as nat;
        lemma_reach_grows(ue, q, m);
        let prev = reach_within(ue, set![q], m);
        let cur = reach_within(ue, set![q], n);
        assert(prev.subset_of(cur));
        assert(prev != cur);
        let x = choose|x: Text| cur.contains(x) && !prev.contains(x);
        assert(cur.contains(x) && !prev.contains(x)) by {
            if forall|x: Text| cur.contains(x) ==> prev.contains(x) {
                assert(prev =~= cur);
            }
        }
        prev.lemma_subset_not_in_lt(cur, x);
    }
}

/// A weakly connected component is finite and no edge leaves it.
pub proof fn lemma_component_closed(ue: Seq<(Text, Text)>, q: Text)
    ensures
        component_set(ue, q).finite(),
        closed_under(ue, component_set(ue, q)),
{
    let n = (1 + ue.len()) as nat;
    let bound = set![q].union(edge_ends(ue));
    lemma_reach_bounded(ue, q, n);
    vstd::set_lib::lemma_len_subset(reach_within(ue, set![q], n), bound);
    ue.map_values(|e: (Text, Text)| e.1).lemma_cardinality_of_set();
    vstd::set_lib::lemma_len_union(set![q], edge_ends(ue));
    assert(set![q].len() == 1);
    if exists|j: nat| j < n && #[trigger] reach_within(ue, set![q], j) == reach_within(ue, set![q], j + 1) {
        let j = choose|j: nat| j < n && #[trigger] reach_within(ue, set![q], j) == reach_within(ue, set![q], j + 1);
        crate::structural::graph::lemma_reach_fixpoint(ue, set![q], j, n);
        crate::structural::graph::lemma_reach_fixpoint(ue, set![q], j, n + 1);
        assert(step_from(ue, reach_within(ue, set![q], n)).subset_of(reach_within(ue, set![q], n + 1)));
    } else {
        lemma_reach_grows(ue, q, n);
        assert(false);
    }
}

/// The components found from fact `i` on share no file with `visited` nor
/// with each other, when `visited` is closed and every edge has its reverse.
pub proof fn lemma_components_disjoint(facts: Seq<FileFacts>, ue: Seq<(Text, Text)>, i: int, visited: Set<Text>)
    requires
        symmetric_edges(ue),
        closed_under(ue, visited),
    ensures
        forall|a: int, x: Text|
            #![trigger components_from(facts, ue, i, visited)[a].contains(x)]
            0 <= a < components_from(facts, ue, i, visited).len() && components_from(facts, ue, i, visited)[a].contains(x)
                ==> !visited.contains(x),
        forall|a: int, b: int, x: Text|
            #![trigger components_from(facts, ue, i, visited)[a].contains(x), components_from(facts, ue, i, visited)[b].contains(x)]
            0 <= a < b < components_from(facts, ue, i, visited).len() ==> !(components_from(facts, ue, i, visited)[a].contains(x)
                && components_from(facts, ue, i, visited)[b].contains(x)),
    decreases facts.len() - i,
{
    if 0 <= i < facts.len() {
        if !facts[i].is_test && !visited.contains(facts[i].path@) {
            let p = facts[i].path@;
            let comp = component_set(ue, p);
            lemma_component_closed(ue, p);
            crate::grouping::lemma_sorted_set_finite(comp);
            let c = sorted_set(comp);
            let next = visited + c.to_set();
            assert(closed_under(ue, next)) by {
                assert forall|t: Text| step_from(ue, next).contains(t) implies next.contains(t) by {
                    let k = choose|k: int| 0 <= k < ue.len() && next.contains((#[trigger] ue[k]).0) && ue[k].1 == t;
                    if visited.contains(ue[k].0) {
                        assert(step_from(ue, visited).contains(t));
                    } else {
                        assert(step_from(ue, comp).contains(t));
                    }
                }
            }
            lemma_components_disjoint(facts, ue, i + 1, next);
            let rest = components_from(facts, ue, i + 1, next);
            let all = components_from(facts, ue, i, visited);
            assert(all == seq![c] + rest);
            assert forall|x: Text| c.contains(x) implies !visited.contains(x) by {
                assert(c.to_set().contains(x));
                if visited.contains(x) {
                    lemma_reached_back(ue, visited, p, (1 + ue.len()) as nat, x);
                }
            }
            assert forall|a: int, x: Text|
                #![trigger all[a].contains(x)]
                0 <= a < all.len() && all[a].contains(x) implies !visited.contains(x) by {
                if a > 0 {
                    assert(all[a] == rest[a - 1]);
                }
            }
            assert forall|a: int, b: int, x: Text|
                #![trigger all[a].contains(x), all[b].contains(x)]
                0 <= a < b < all.len() implies !(all[a].contains(x) && all[b].contains(x)) by {
                assert(all[b] == rest[b - 1]);
                if a == 0 {
                    if c.contains(x) {
                        assert(c.to_set().contains(x));
                        assert(next.contains(x));
                    }
                } else {
                    assert(all[a] == rest[a - 1]);
                }
            }
        } else {
            lemma_components_disjoint(facts, ue, i + 1, visited);
            assert(components_from(facts, ue, i, visited) == components_from(facts, ue, i + 1, visited));
        }
    } else {
        assert(components_from(facts, ue, i, visited).len() == 0);
    }
}

/// No file lies in two of the components.
pub open spec fn pairwise_disjoint(cs: Seq<Seq<Text>>) -> bool {
    forall|a: int, b: int, x: Text|
        #![trigger cs[a].contains(x), cs[b].contains(x)]
        0 <= a < b < cs.len() ==> !(cs[a].contains(x) && cs[b].contains(x))
}

proof fn lemma_kept_from(
    comps: Seq<Seq<Text>>,
    facts: Seq<FileFacts>,
    edges: Seq<(Text, Text)>,
    app_reach: Set<Text>,
    cycles: Seq<Seq<Text>>,
)
    ensures
        forall|k: int|
            0 <= k < kept_islands(comps, facts, edges, app_reach, cycles).len() ==> comps.contains(
                #[trigger] kept_islands(comps, facts, edges, app_reach, cycles)[k],
            ),
        pairwise_disjoint(comps) ==> pairwise_disjoint(kept_islands(comps, facts, edges, app_reach, cycles)),
    decreases comps.len(),
{
    if comps.len() > 0 {
        let init = comps.drop_last();
        lemma_kept_from(init, facts, edges, app_reach, cycles);
        let prev = kept_islands(init, facts, edges, app_reach, cycles);
        let all = kept_islands(comps, facts, edges, app_reach, cycles);
        assert forall|k: int| 0 <= k < all.len() implies comps.contains(#[trigger] all[k]) by {
            if k < prev.len() {
                assert(all[k] == prev[k]);
                assert(init.contains(prev[k]));
                let q = choose|q: int| 0 <= q < init.len() && init[q] == prev[k];
                assert(comps[q] == prev[k]);
            } else {
                assert(all[k] == comps.last());
                assert(comps[comps.len() - 1] == comps.last());
            }
        }
        if pairwise_disjoint(comps) {
            assert(pairwise_disjoint(init)) by {
                assert forall|a: int, b: int, x: Text|
                    #![trigger init[a].contains(x), init[b].contains(x)]
                    0 <= a < b < init.len() implies !(init[a].contains(x) && init[b].contains(x)) by {
                    assert(init[a] == comps[a] && init[b] == comps[b]);
                }
            }
            assert forall|a: int, b: int, x: Text|
                #![trigger all[a].contains(x), all[b].contains(x)]
                0 <= a < b < all.len() implies !(all[a].contains(x) && all[b].contains(x)) by {
                if b < prev.len() {
                    assert(all[a] == prev[a] && all[b] == prev[b]);
                } else {
                    assert(all[b] == comps.last());
                    assert(all[a] == prev[a]);
                    assert(init.contains(prev[a]));
                    let q = choose|q: int| 0 <= q < init.len() && init[q] == prev[a];
                    assert(comps[q] == prev[a]);
                    assert(comps[comps.len() - 1] == comps.last());
                    assert(!(comps[q].contains(x) && comps[comps.len() - 1].contains(x)));
                }
            }
        }
    }
}

/// No file lies in two dead-island reports.
pub proof fn lemma_dead_islands_disjoint(
    r: Seq<StructuralDebtReport>,
    snapshot: Snapshot,
    health: HealthReport,
    facts: Seq<FileFacts>,
    g: StructuralGraph,
)
    requires
        dead_island_reports_of(r, snapshot, health, facts, g),
    ensures
        forall|a: int, b: int, x: Text|
            #![trigger r[a].files.deep_view().contains(x), r[b].files.deep_view().contains(x)]
            0 <= a < b < r.len() ==> !(r[a].files.deep_view().contains(x) && r[b].files.deep_view().contains(x)),
{
    let ev = edge_view(g.edges@);
    let roots = app_root_set(snapshot, facts, ev);
    let app_reach = reach_from(g.edges@, roots);
    let ue = undirected_view(ev);
    let comps = weak_components_of(facts, ev);
    let cycles = health.circular_dep_files.deep_view();
    let kept = kept_islands(comps, facts, ev, app_reach, cycles);
    let test_reach = reach_from(g.edges@, test_root_set(facts));
    lemma_undirected_symmetric(ev);
    assert(closed_under(ue, Set::<Text>::empty())) by {
        assert forall|t: Text| step_from(ue, Set::<Text>::empty()).contains(t) implies Set::<Text>::empty().contains(t) by {
            let k = choose|k: int| 0 <= k < ue.len() && Set::<Text>::empty().contains((#[trigger] ue[k]).0) && ue[k].1 == t;
        }
    }
    lemma_components_disjoint(facts, ue, 0, Set::empty());
    assert(pairwise_disjoint(comps));
    lemma_kept_from(comps, facts, ev, app_reach, cycles);
    assert forall|a: int, b: int, x: Text|
        #![trigger r[a].files.deep_view().contains(x), r[b].files.deep_view().contains(x)]
        0 <= a < b < r.len() implies !(r[a].files.deep_view().contains(x) && r[b].files.deep_view().contains(x)) by {
        assert(roots != Set::<Text>::empty());
        assert(is_dead_island_report(
            r[a],
            kept[a],
            component_lines_of(kept[a], facts),
            largest_cycle(kept[a], cycles) as usize,
            0,
            0,
            any_member_in(kept[a], test_reach),
        ));
        assert(is_dead_island_report(
            r[b],
            kept[b],
            component_lines_of(kept[b], facts),
            largest_cycle(kept[b], cycles) as usize,
            0,
            0,
            any_member_in(kept[b], test_reach),
        ));
        assert(!(kept[a].contains(x) && kept[b].contains(x)));
    }
}

/// Every component kept as an island meets `island_kept`.
pub proof fn lemma_kept_islands_kept(
    comps: Seq<Seq<Text>>,
    facts: Seq<FileFacts>,
    edges: Seq<(Text, Text)>,
    app_reach: Set<Text>,
    cycles: Seq<Seq<Text>>,
)
    ensures
        forall|k: int|
            0 <= k < kept_islands(comps, facts, edges, app_reach, cycles).len() ==> island_kept(
                #[trigger] kept_islands(comps, facts, edges, app_reach, cycles)[k],
                facts,
                edges,
                app_reach,
                cycles,
            ),
    decreases comps.len(),
{
    if comps.len() > 0 {
        lemma_kept_islands_kept(comps.drop_last(), facts, edges, app_reach, cycles);
        let prev = kept_islands(comps.drop_last(), facts, edges, app_reach, cycles);
        let all = kept_islands(comps, facts, edges, app_reach, cycles);
        assert forall|k: int| 0 <= k < all.len() implies island_kept(#[trigger] all[k], facts, edges, app_reach, cycles) by {
            if k < prev.len() {
                assert(all[k] == prev[k]);
                assert(island_kept(prev[k], facts, edges, app_reach, cycles));
            }
        }
    }
}

/// What every dead-island report says of its files: no application root
/// reaches any of them, none exposes public functions, none is an entry or
/// a package index, no non-test file outside them depends on them, not all
/// are support files, and they are two or more or lie on a cycle of two or
/// more.
pub proof fn lemma_dead_island_unreached(
    r: Seq<StructuralDebtReport>,
    snapshot: Snapshot,
    health: HealthReport,
    facts: Seq<FileFacts>,
    g: StructuralGraph,
    k: int,
)
    requires
        dead_island_reports_of(r, snapshot, health, facts, g),
        0 <= k < r.len(),
    ensures
        ({
            let ev = edge_view(g.edges@);
            let files = r[k].files.deep_view();
            let app_reach = reach_from(g.edges@, app_root_set(snapshot, facts, ev));
            &&& r[k].kind@ == "dead_island"@
            &&& r[k].trust_tier == StructuralTrustTier::Watchpoint
            &&& forall|m: int| 0 <= m < files.len() ==> !app_reach.contains(#[trigger] files[m])
            &&& !exposes_public(files, facts)
            &&& !has_entry_or_package_file(files, facts)
            &&& outside_production_sources(facts, ev, files.to_set()).len() == 0
            &&& !all_support_paths(files)
            &&& (files.len() >= 2 || largest_cycle(files, health.circular_dep_files.deep_view()) >= 2)
        }),
{
    let ev = edge_view(g.edges@);
    let roots = app_root_set(snapshot, facts, ev);
    let app_reach = reach_from(g.edges@, roots);
    let comps = weak_components_of(facts, ev);
    let cycles = health.circular_dep_files.deep_view();
    let kept = kept_islands(comps, facts, ev, app_reach, cycles);
    let test_reach = reach_from(g.edges@, test_root_set(facts));
    lemma_kept_islands_kept(comps, facts, ev, app_reach, cycles);
    assert(is_dead_island_report(
        r[k],
        kept[k],
        component_lines_of(kept[k], facts),
        largest_cycle(kept[k], cycles) as usize,
        0,
        0,
        any_member_in(kept[k], test_reach),
    ));
    assert(island_kept(kept[k], facts, ev, app_reach, cycles));
    let files = r[k].files.deep_view();
    assert(files == kept[k]);
    assert forall|m: int| 0 <= m < files.len() implies !app_reach.contains(#[trigger] files[m]) by {
        if app_reach.contains(files[m]) {
            assert(any_member_in(kept[k], app_reach));
        }
    }
}

/// Each dead-island report's severity follows its score and its leverage
/// class and reasons follow from the report.
pub proof fn lemma_dead_island_consistent(
    r: Seq<StructuralDebtReport>,
    snapshot: Snapshot,
    health: HealthReport,
    facts: Seq<FileFacts>,
    g: StructuralGraph,
    k: int,
)
    requires
        dead_island_reports_of(r, snapshot, health, facts, g),
        0 <= k < r.len(),
    ensures
        r[k].severity == severity_of_score(r[k].score_0_10000),
        r[k].role_tags@.len() == 0,
        r[k].leverage_class == leverage_of(r[k].kind@, r[k].trust_tier, r[k].presentation_class, Seq::empty(), r[k].metrics),
        r[k].leverage_reasons.deep_view() == leverage_reasons_of(r[k].leverage_class, r[k].kind@, Seq::empty(), r[k].metrics),
{
    let ev = edge_view(g.edges@);
    let roots = app_root_set(snapshot, facts, ev);
    let kept = kept_islands(
        weak_components_of(facts, ev),
        facts,
        ev,
        reach_from(g.edges@, roots),
        health.circular_dep_files.deep_view(),
    );
    let test_reach = reach_from(g.edges@, test_root_set(facts));
    assert(is_dead_island_report(
        r[k],
        kept[k],
        component_lines_of(kept[k], facts),
        largest_cycle(kept[k], health.circular_dep_files.deep_view()) as usize,
        0,
        0,
        any_member_in(kept[k], test_reach),
    ));
}

/// What a dead-island report says of its files: no application root
/// reaches any of them, none exposes public functions, none is an entry or
/// a package index, no non-test file outside them depends on them, not all
/// are support files, and they are two or more or lie on a cycle of two or
/// more.
pub open spec fn dead_island_facts(
    x: StructuralDebtReport,
    snapshot: Snapshot,
    health: HealthReport,
    facts: Seq<FileFacts>,
    g: StructuralGraph,
) -> bool {
    let ev = edge_view(g.edges@);
    let files = x.files.deep_view();
    let app_reach = reach_from(g.edges@, app_root_set(snapshot, facts, ev));
    &&& x.kind@ == "dead_island"@
    &&& x.trust_tier == StructuralTrustTier::Watchpoint
    &&& forall|m: int| 0 <= m < files.len() ==> !app_reach.contains(#[trigger] files[m])
    &&& !exposes_public(files, facts)
    &&& !has_entry_or_package_file(files, facts)
    &&& outside_production_sources(facts, ev, files.to_set()).len() == 0
    &&& !all_support_paths(files)
    &&& (files.len() >= 2 || largest_cycle(files, health.circular_dep_files.deep_view()) >= 2)
}

/// The dead-island reports: when the project has application roots, one per
/// weakly connected component that is kept (see `island_kept`), in order.
/// No file lies in two reports; each report's files are sorted; each report meets
/// `dead_island_facts`; its severity follows its score and its leverage
/// class and reasons follow from the report.
pub fn build_dead_island_reports(snapshot: &Snapshot, health: &HealthReport, facts: &Vec<FileFacts>, g: &StructuralGraph) -> (r:
    Vec<StructuralDebtReport>)
    requires
        g.edges@.len() < usize::MAX / 8,
        facts@.len() < usize::MAX / 8,
        snapshot.entry_points@.len() < usize::MAX / 8,
    ensures
        dead_island_reports_of(r@, *snapshot, *health, facts@, *g),
        app_root_set(*snapshot, facts@, edge_view(g.edges@)) == Set::<Text>::empty() ==> r@.len() == 0,
        forall|a: int, b: int, x: Text|
            #![trigger r@[a].files.deep_view().contains(x), r@[b].files.deep_view().contains(x)]
            0 <= a < b < r@.len() ==> !(r@[a].files.deep_view().contains(x) && r@[b].files.deep_view().contains(x)),
        forall|k: int| 0 <= k < r@.len() ==> dead_island_facts(#[trigger] r@[k], *snapshot, *health, facts@, *g),
        forall|k: int| 0 <= k < r@.len() ==> strictly_sorted(#[trigger] r@[k].files.deep_view()),
        forall|k: int|
            0 <= k < r@.len() ==> {
                &&& (#[trigger] r@[k]).severity == severity_of_score(r@[k].score_0_10000)
                &&& r@[k].leverage_class == leverage_of(r@[k].kind@, r@[k].trust_tier, r@[k].presentation_class, Seq::empty(), r@[k].metrics)
                &&& r@[k].leverage_reasons.deep_view() == leverage_reasons_of(r@[k].leverage_class, r@[k].kind@, Seq::empty(), r@[k].metrics)
            },
{
    let r = collect_dead_island_reports(snapshot, health, facts, g);
    proof {
        lemma_dead_islands_disjoint(r@, *snapshot, *health, facts@, *g);
        assert forall|k: int| 0 <= k < r@.len() implies dead_island_facts(#[trigger] r@[k], *snapshot, *health, facts@, *g) by {
            lemma_dead_island_unreached(r@, *snapshot, *health, facts@, *g, k);
        }
        assert forall|k: int| 0 <= k < r@.len() implies {
            &&& (#[trigger] r@[k]).severity == severity_of_score(r@[k].score_0_10000)
            &&& r@[k].leverage_class == leverage_of(r@[k].kind@, r@[k].trust_tier, r@[k].presentation_class, Seq::empty(), r@[k].metrics)
            &&& r@[k].leverage_reasons.deep_view() == leverage_reasons_of(r@[k].leverage_class, r@[k].kind@, Seq::empty(), r@[k].metrics)
        } by {
            lemma_dead_island_consistent(r@, *snapshot, *health, facts@, *g, k);
        }
    }
    r
}

fn collect_dead_island_reports(snapshot: &Snapshot, health: &HealthReport, facts: &Vec<FileFacts>, g: &StructuralGraph) -> (r:
    Vec<StructuralDebtReport>)
    requires
        g.edges@.len() < usize::MAX / 8,
        facts@.len() < usize::MAX / 8,
        snapshot.entry_points@.len() < usize::MAX / 8,
    ensures
        dead_island_reports_of(r@, *snapshot, *health, facts@, *g),
        forall|k: int| 0 <= k < r@.len() ==> strictly_sorted(#[trigger] r@[k].files.deep_view()),
{
    let ghost ev = edge_view(g.edges@);
    let ghost cycles = health.circular_dep_files.deep_view();
    let app_roots = application_root_files(snapshot, facts, g);
    let mut r: Vec<StructuralDebtReport> = Vec::new();
    if app_roots.len() == 0 {
        assert(app_roots.deep_view().to_set() =~= Set::<Text>::empty());
        return r;
    }
    assert(app_roots.deep_view().to_set().contains(app_roots.deep_view()[0]));
    let test_roots = test_root_files(facts);
    proof {
        let entry_files = snapshot.entry_points@.map_values(|e: crate::snapshot::EntryPoint| e.file@);
        let fact_paths = facts@.map_values(|f: FileFacts| f.path@);
        assert(app_roots.deep_view().to_set().subset_of((entry_files + fact_paths).to_set())) by {
            assert forall|p: Text| app_roots.deep_view().to_set().contains(p) implies (entry_files
                + fact_paths).to_set().contains(p) by {
                if primary_roots(*snapshot, facts@) != Set::<Text>::empty() {
                    if exists|q: int|
                        0 <= q < snapshot.entry_points@.len() && (#[trigger] snapshot.entry_points@[q]).file@ == p
                            && is_production_fact(facts@, p) {
                        let q = choose|q: int|
                            0 <= q < snapshot.entry_points@.len() && (#[trigger] snapshot.entry_points@[q]).file@ == p
                                && is_production_fact(facts@, p);
                        assert((entry_files + fact_paths)[q] == p);
                    } else {
                        let q = choose|q: int|
                            0 <= q < facts@.len() && (#[trigger] facts@[q]).path@ == p && (facts@[q].has_entry_tag
                                || facts@[q].is_package_index) && !facts@[q].is_test;
                        assert((entry_files + fact_paths)[entry_files.len() + q] == p);
                    }
                } else {
                    let q = choose|q: int|
                        0 <= q < facts@.len() && (#[trigger] facts@[q]).path@ == p && is_zero_inbound_root(
                            facts@[q],
                            facts@,
                            ev,
                        );
                    assert((entry_files + fact_paths)[entry_files.len() + q] == p);
                }
            }
        }
        lemma_sorted_subset_len(app_roots.deep_view(), entry_files + fact_paths);
        assert(test_roots.deep_view().to_set().subset_of(fact_paths.to_set())) by {
            assert forall|p: Text| test_roots.deep_view().to_set().contains(p) implies fact_paths.to_set().contains(p) by {
                let q = choose|q: int| 0 <= q < facts@.len() && (#[trigger] facts@[q]).path@ == p && facts@[q].is_test;
                assert(fact_paths[q] == p);
            }
        }
        lemma_sorted_subset_len(test_roots.deep_view(), fact_paths);
        crate::grouping::lemma_sorted_set_of(app_roots.deep_view());
        crate::grouping::lemma_sorted_set_of(test_roots.deep_view());
    }
    let app_reachable = reachable_files(&g.edges, &app_roots);
    let test_reachable = reachable_files(&g.edges, &test_roots);
    let ghost app_reach = reach_from(g.edges@, app_root_set(*snapshot, facts@, ev));
    let ghost test_reach = reach_from(g.edges@, test_root_set(facts@));
    assert(app_reachable.deep_view().to_set() == app_reach);
    assert(test_reachable.deep_view().to_set() == test_reach);
    let components = weak_components(facts, g);
    let ghost comps = components.deep_view();
    let mut c: usize = 0;
    assert(comps.take(0) =~= Seq::<Seq<Text>>::empty());
    while c < components.len()
        invariant
            ev == edge_view(g.edges@),
            cycles == health.circular_dep_files.deep_view(),
            comps == components.deep_view(),
            app_reachable.deep_view().to_set() == app_reach,
            test_reachable.deep_view().to_set() == test_reach,
            c <= comps.len(),
            r@.len() == kept_islands(comps.take(c as int), facts@, ev, app_reach, cycles).len(),
            forall|k: int|
                0 <= k < r@.len() ==> {
                    let comp = kept_islands(comps.take(c as int), facts@, ev, app_reach, cycles)[k];
                    is_dead_island_report(
                        #[trigger] r@[k],
                        comp,
                        component_lines_of(comp, facts@),
                        largest_cycle(comp, cycles) as usize,
                        0,
                        0,
                        any_member_in(comp, test_reach),
                    )
                },
            forall|k: int| 0 <= k < comps.len() ==> strictly_sorted(#[trigger] comps[k]),
            forall|k: int| 0 <= k < r@.len() ==> strictly_sorted(#[trigger] r@[k].files.deep_view()),
        decreases comps.len() - c,
    {
        assert(comps.take(c + 1).drop_last() =~= comps.take(c as int));
        assert(comps.take(c + 1).last() == comps[c as int]);
        let ghost prev = kept_islands(comps.take(c as int), facts@, ev, app_reach, cycles);
        let component = &components[c];
        assert(component.deep_view() == comps[c as int]);
        let inbound = external_non_test_inbound_count(component, facts, &g.edges);
        let cycle_size = largest_cycle_of(component, &health.circular_dep_files);
        let keep = !any_in(component, &app_reachable) && !all_support(component) && !has_public_surface(component, facts)
            && !has_entry_or_package(component, facts) && inbound == 0 && !(component.len() < 2 && cycle_size < 2)
            && (component.len() as u32 as u64) * 900 <= u32::MAX as u64 && (cycle_size as u32 as u64) * 700
            <= u32::MAX as u64;
        assert(keep == island_kept(comps[c as int], facts@, ev, app_reach, cycles));
        if keep {
            let lines = component_lines(component, facts);
            let from_tests = any_in(component, &test_reachable);
            let report = dead_island_report(component, lines, cycle_size, inbound, 0, from_tests);
            assert(report.files.deep_view() == comps[c as int]);
            r.push(report);
            assert(kept_islands(comps.take(c + 1), facts@, ev, app_reach, cycles) == prev.push(comps[c as int]));
        } else {
            assert(kept_islands(comps.take(c + 1), facts@, ev, app_reach, cycles) == prev);
        }
        c = c + 1;
    }
    assert(comps.take(comps.len() as int) =~= comps);
    r
}

} // verus!
