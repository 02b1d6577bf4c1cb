//! The structural debt reports of a project: every kind of report, ordered by
//! severity, score and scope.
use crate::order::{lex_lt, sorted_insert, sorted_unique, strictly_sorted, text_less, texts_contain};
use crate::snapshot::{FileNode, Snapshot};
use crate::sorting::{ranked_order, sort_ranked, Ranked};
use crate::structural::cycles::cycle_cut_candidates;
use crate::structural::facts::{build_file_facts, facts_of_snapshot, contextual_role_tags, contextual_roles_of, GuardrailFileEvidence};
use crate::structural::guardrails::{detect_architecture_guardrails, guardrails_detected, GuardrailSource};
use crate::structural::file_reports::{
    dependency_sprawl_report, is_dependency_sprawl_report, is_large_file_report, is_unstable_hotspot_report,
    large_file_report, unstable_hotspot_report,
};
use crate::structural::graph::{
    build_structural_graph, graph_of, cycle_size_for, edge_view, external_non_test_inbound_count, fact_index, find_facts,
    reachable_files, sources, targets, StructuralGraph,
};
use crate::structural::roles::{annotate_structural_leverage, structural_presentation_class};
use crate::structural::scoring::{
    cycle_cluster_score, cycle_cluster_score_of, dead_island_score, dead_private_cluster_score, severity_of_score,
    signal_severity,
};
use crate::structural::utils::{dedupe_strings_preserve_order, first_values, to_ascii_lower};
use crate::grouping::sorted_set;
use crate::structural::roles::{leverage_of, leverage_reasons_of, presentation_of};
use crate::structural::scoring::dead_private_score_of;
use crate::structural::utils::dedupe;
use crate::text::{dec, join};
use crate::structural::{
    CycleCutCandidate, FileFacts, FileMetric, FuncMetric, HealthReport, StructuralDebtMetrics, StructuralDebtReport,
    StructuralLeverageClass, StructuralSignalClass, StructuralTrustTier,
};
use crate::text::{contains, decimal, join_texts, phrase, push_line, starts_with, text_eq, Text};
use crate::FindingSeverity;
use vstd::prelude::*;

verus! {

impl Ranked for StructuralDebtReport {
    /// Higher severity first, then higher score, then scope.
    open spec fn ranks_before(self, other: Self) -> bool {
        ||| self.severity.spec_priority() > other.severity.spec_priority()
        ||| (self.severity.spec_priority() == other.severity.spec_priority() && self.score_0_10000
            > other.score_0_10000)
        ||| (self.severity.spec_priority() == other.severity.spec_priority() && self.score_0_10000
            == other.score_0_10000 && lex_lt(self.scope@, other.scope@))
    }

    fn is_ranked_before(&self, other: &Self) -> (r: bool) {
        let a = self.severity.priority();
        let b = other.severity.priority();
        if a != b {
            return a > b;
        }
        if self.score_0_10000 != other.score_0_10000 {
            return self.score_0_10000 > other.score_0_10000;
        }
        text_less(self.scope.as_str(), other.scope.as_str())
    }

    proof fn lemma_ranking_irreflexive(a: Self) {
        crate::order::lemma_lex_irreflexive(a.scope@);
    }

    proof fn lemma_ranking_transitive(a: Self, b: Self, c: Self) {
        if lex_lt(a.scope@, b.scope@) && lex_lt(b.scope@, c.scope@) {
            crate::order::lemma_lex_transitive(a.scope@, b.scope@, c.scope@);
        }
    }

    proof fn lemma_ranking_connected(a: Self, b: Self, c: Self) {
        crate::order::lemma_lex_total(a.scope@, b.scope@);
        crate::order::lemma_lex_total(b.scope@, c.scope@);
        if lex_lt(b.scope@, a.scope@) && lex_lt(c.scope@, b.scope@) {
            crate::order::lemma_lex_transitive(c.scope@, b.scope@, a.scope@);
            crate::order::lemma_lex_asymmetric(c.scope@, a.scope@);
        }
        if lex_lt(b.scope@, a.scope@) && b.scope@ == c.scope@ {
            crate::order::lemma_lex_asymmetric(b.scope@, a.scope@);
        }
        if a.scope@ == b.scope@ && lex_lt(c.scope@, b.scope@) {
            crate::order::lemma_lex_asymmetric(c.scope@, b.scope@);
        }
    }
}

fn metrics_none() -> (m: StructuralDebtMetrics)
    ensures
        m == crate::structural::no_metrics(),
{
    StructuralDebtMetrics {
        file_count: None,
        line_count: None,
        function_count: None,
        fan_in: None,
        fan_out: None,
        instability_0_10000: None,
        dead_symbol_count: None,
        dead_line_count: None,
        cycle_size: None,
        max_complexity: None,
        inbound_reference_count: None,
        public_surface_count: None,
        reachable_from_tests: None,
        cut_candidate_count: None,
        largest_cycle_after_best_cut: None,
        guardrail_test_count: None,
        role_count: None,
    }
}

fn two_lines(a: &str, b: &str) -> (r: Vec<String>)
    ensures
        r.deep_view() == seq![a@, b@],
{
    let mut r: Vec<String> = Vec::new();
    push_line(&mut r, a.to_string());
    push_line(&mut r, b.to_string());
    assert(r.deep_view() =~= seq![a@, b@]);
    r
}

/// The listed metrics whose file was analysed, in order.
pub open spec fn analysed_metrics(ms: Seq<FileMetric>, facts: Seq<FileFacts>) -> Seq<FileMetric>
    decreases ms.len(),
{
    if ms.len() == 0 {
        Seq::empty()
    } else {
        let prev = analysed_metrics(ms.drop_last(), facts);
        if fact_index(facts, ms.last().path@) is Some {
            prev.push(ms.last())
        } else {
            prev
        }
    }
}

/// The facts of an analysed file.
pub open spec fn facts_at(facts: Seq<FileFacts>, p: Text) -> FileFacts {
    facts[fact_index(facts, p)->0]
}

/// Positions of the listed metrics whose file was analysed, with the
/// position of each one's facts.
fn analysed_positions(ms: &Vec<FileMetric>, facts: &Vec<FileFacts>) -> (r: Vec<(usize, usize)>)
    ensures
        r@.len() == analysed_metrics(ms@, facts@).len(),
        forall|k: int|
            0 <= k < r@.len() ==> {
                let (i, j) = #[trigger] r@[k];
                &&& i < ms@.len()
                &&& ms@[i as int] == analysed_metrics(ms@, facts@)[k]
                &&& fact_index(facts@, ms@[i as int].path@) == Some(j as int)
                &&& j < facts@.len()
                &&& facts@[j as int].path@ == ms@[i as int].path@
            },
{
    let ghost mv = ms@;
    let mut r: Vec<(usize, usize)> = Vec::new();
    let mut i: usize = 0;
    assert(mv.take(0) =~= Seq::<FileMetric>::empty());
    while i < ms.len()
        invariant
            mv == ms@,
            i <= mv.len(),
            r@.len() == analysed_metrics(mv.take(i as int), facts@).len(),
            forall|k: int|
                0 <= k < r@.len() ==> {
                    let (a, j) = #[trigger] r@[k];
                    &&& a < i
                    &&& mv[a as int] == analysed_metrics(mv.take(i as int), facts@)[k]
                    &&& fact_index(facts@, mv[a as int].path@) == Some(j as int)
                    &&& j < facts@.len()
                    &&& facts@[j as int].path@ == mv[a as int].path@
                },
        decreases mv.len() - i,
    {
        assert(mv.take(i + 1).drop_last() =~= mv.take(i as int));
        assert(mv.take(i + 1).last() == mv[i as int]);
        let ghost prev = analysed_metrics(mv.take(i as int), facts@);
        match find_facts(facts, ms[i].path.as_str()) {
            Some(j) => {
                r.push((i, j));
                assert(analysed_metrics(mv.take(i + 1), facts@) == prev.push(mv[i as int]));
            },
            None => {
                assert(analysed_metrics(mv.take(i + 1), facts@) == prev);
            },
        }
        i = i + 1;
    }
    assert(mv.take(mv.len() as int) =~= mv);
    r
}

/// The large-file reports: one per analysed long file, in listing order.
pub open spec fn large_file_reports_of(r: Seq<StructuralDebtReport>, health: HealthReport, facts: Seq<FileFacts>, g: StructuralGraph) -> bool {
    &&& r.len() == analysed_metrics(health.long_files@, facts).len()
    &&& forall|k: int|
        0 <= k < r.len() ==> {
            let m = analysed_metrics(health.long_files@, facts)[k];
            is_large_file_report(#[trigger] r[k], m.path@, m.value, facts_at(facts, m.path@), facts, g)
        }
}

/// The dependency-sprawl reports: one per analysed god file, in listing order.
pub open spec fn dependency_sprawl_reports_of(r: Seq<StructuralDebtReport>, health: HealthReport, facts: Seq<FileFacts>, g: StructuralGraph) -> bool {
    &&& r.len() == analysed_metrics(health.god_files@, facts).len()
    &&& forall|k: int|
        0 <= k < r.len() ==> {
            let m = analysed_metrics(health.god_files@, facts)[k];
            is_dependency_sprawl_report(#[trigger] r[k], m.path@, facts_at(facts, m.path@), facts, g)
        }
}

/// The unstable-hotspot reports: one per analysed hotspot file, in listing
/// order.
pub open spec fn unstable_hotspot_reports_of(r: Seq<StructuralDebtReport>, health: HealthReport, facts: Seq<FileFacts>, g: StructuralGraph) -> bool {
    &&& r.len() == analysed_metrics(health.hotspot_files@, facts).len()
    &&& forall|k: int|
        0 <= k < r.len() ==> {
            let m = analysed_metrics(health.hotspot_files@, facts)[k];
            is_unstable_hotspot_report(#[trigger] r[k], m.path@, facts_at(facts, m.path@), facts, g)
        }
}

/// The cycle-cluster reports: one per cycle, in listing order.
pub open spec fn cycle_cluster_reports_of(r: Seq<StructuralDebtReport>, health: HealthReport, facts: Seq<FileFacts>, g: StructuralGraph) -> bool {
    &&& r.len() == health.circular_dep_files@.len()
    &&& forall|i: int|
        0 <= i < r.len() ==> is_cycle_report(#[trigger] r[i], health.circular_dep_files@[i].deep_view(), facts, g)
}

/// The dead-private-code reports: one per file whose dead functions are all
/// private, in order.
pub open spec fn dead_private_reports_of(r: Seq<StructuralDebtReport>, health: HealthReport, facts: Seq<FileFacts>) -> bool {
    let kept = dead_private_files(health.dead_functions@, facts, dead_files(health.dead_functions@));
    &&& r.len() == kept.len()
    &&& forall|k: int|
        0 <= k < kept.len() ==> is_dead_private_report(
            #[trigger] r[k],
            kept[k],
            dead_names(health.dead_functions@, kept[k]),
            dead_lines_of(health.dead_functions@, kept[k], dead_names(health.dead_functions@, kept[k])),
            facts_at(facts, kept[k]),
        )
}

/// The oversized-file reports of the health report's long files: one per
/// long file that was analysed, in order.
pub fn build_large_file_reports(health: &HealthReport, facts: &Vec<FileFacts>, g: &StructuralGraph) -> (r: Vec<
    StructuralDebtReport,
>)
    ensures
        large_file_reports_of(r@, *health, facts@, *g),
{
    let positions = analysed_positions(&health.long_files, facts);
    let ghost am = analysed_metrics(health.long_files@, facts@);
    let mut r: Vec<StructuralDebtReport> = Vec::new();
    let mut k: usize = 0;
    while k < positions.len()
        invariant
            am == analysed_metrics(health.long_files@, facts@),
            positions@.len() == am.len(),
            forall|q: int|
                0 <= q < positions@.len() ==> {
                    let (i, j) = #[trigger] positions@[q];
                    &&& i < health.long_files@.len()
                    &&& health.long_files@[i as int] == am[q]
                    &&& fact_index(facts@, health.long_files@[i as int].path@) == Some(j as int)
                    &&& j < facts@.len()
                    &&& facts@[j as int].path@ == health.long_files@[i as int].path@
                },
            k <= am.len(),
            r@.len() == k,
            forall|q: int|
                0 <= q < k ==> is_large_file_report(#[trigger] r@[q], am[q].path@, am[q].value, facts_at(facts@, am[q].path@), facts@, *g),
        decreases am.len() - k,
    {
        let (i, j) = positions[k];
        assert(positions@[k as int] == (i, j));
        r.push(large_file_report(&health.long_files[i], &facts[j], facts, g));
        k = k + 1;
    }
    r
}

/// The dependency-sprawl reports of the health report's god files: one per
/// god file that was analysed, in order.
pub fn build_dependency_sprawl_reports(health: &HealthReport, facts: &Vec<FileFacts>, g: &StructuralGraph) -> (r: Vec<
    StructuralDebtReport,
>)
    requires
        g.edges@.len() < usize::MAX / 2,
    ensures
        dependency_sprawl_reports_of(r@, *health, facts@, *g),
{
    let positions = analysed_positions(&health.god_files, facts);
    let ghost am = analysed_metrics(health.god_files@, facts@);
    let mut r: Vec<StructuralDebtReport> = Vec::new();
    let mut k: usize = 0;
    while k < positions.len()
        invariant
            g.edges@.len() < usize::MAX / 2,
            am == analysed_metrics(health.god_files@, facts@),
            positions@.len() == am.len(),
            forall|q: int|
                0 <= q < positions@.len() ==> {
                    let (i, j) = #[trigger] positions@[q];
                    &&& i < health.god_files@.len()
                    &&& health.god_files@[i as int] == am[q]
                    &&& fact_index(facts@, health.god_files@[i as int].path@) == Some(j as int)
                    &&& j < facts@.len()
                    &&& facts@[j as int].path@ == health.god_files@[i as int].path@
                },
            k <= am.len(),
            r@.len() == k,
            forall|q: int|
                0 <= q < k ==> is_dependency_sprawl_report(#[trigger] r@[q], am[q].path@, facts_at(facts@, am[q].path@), facts@, *g),
        decreases am.len() - k,
    {
        let (i, j) = positions[k];
        assert(positions@[k as int] == (i, j));
        r.push(dependency_sprawl_report(&health.god_files[i].path, &facts[j], facts, g));
        k = k + 1;
    }
    r
}

/// The unstable-hotspot reports of the health report's hotspot files: one
/// per hotspot file that was analysed, in order.
pub fn build_unstable_hotspot_reports(health: &HealthReport, facts: &Vec<FileFacts>, g: &StructuralGraph) -> (r: Vec<
    StructuralDebtReport,
>)
    requires
        g.edges@.len() < usize::MAX / 2,
    ensures
        unstable_hotspot_reports_of(r@, *health, facts@, *g),
{
    let positions = analysed_positions(&health.hotspot_files, facts);
    let ghost am = analysed_metrics(health.hotspot_files@, facts@);
    let mut r: Vec<StructuralDebtReport> = Vec::new();
    let mut k: usize = 0;
    while k < positions.len()
        invariant
            g.edges@.len() < usize::MAX / 2,
            am == analysed_metrics(health.hotspot_files@, facts@),
            positions@.len() == am.len(),
            forall|q: int|
                0 <= q < positions@.len() ==> {
                    let (i, j) = #[trigger] positions@[q];
                    &&& i < health.hotspot_files@.len()
                    &&& health.hotspot_files@[i as int] == am[q]
                    &&& fact_index(facts@, health.hotspot_files@[i as int].path@) == Some(j as int)
                    &&& j < facts@.len()
                    &&& facts@[j as int].path@ == health.hotspot_files@[i as int].path@
                },
            k <= am.len(),
            r@.len() == k,
            forall|q: int|
                0 <= q < k ==> is_unstable_hotspot_report(#[trigger] r@[q], am[q].path@, facts_at(facts@, am[q].path@), facts@, *g),
        decreases am.len() - k,
    {
        let (i, j) = positions[k];
        assert(positions@[k as int] == (i, j));
        r.push(unstable_hotspot_report(&health.hotspot_files[i].path, &facts[j], facts, g));
        k = k + 1;
    }
    r
}

fn append_all(dst: &mut Vec<String>, src: &Vec<String>)
    ensures
        final(dst).deep_view() == old(dst).deep_view() + src.deep_view(),
{
    let ghost start = dst.deep_view();
    let mut i: usize = 0;
    while i < src.len()
        invariant
            i <= src@.len(),
            dst.deep_view() == start + src.deep_view().take(i as int),
        decreases src@.len() - i,
    {
        push_line(dst, src[i].clone());
        i = i + 1;
        assert(dst.deep_view() =~= start + src.deep_view().take(i as int));
    }
    assert(src.deep_view().take(i as int) =~= src.deep_view());
}

/// The impact statement of a cycle with these role tags.
pub open spec fn cycle_impact_of(tags: Seq<Text>) -> Text {
    if tags.contains("component_barrel"@) {
        "The cycle touches a component-facing barrel, which makes it harder to keep broad component access separate from deeper app and runtime seams."@
    } else if tags.contains("guarded_boundary"@) {
        "The cycle crosses a guardrail-backed boundary, which increases refactor friction and makes it harder to keep the intended layering intact."@
    } else if tags.contains("facade_with_extracted_owners"@) {
        "The cycle still touches a guarded facade, which can hide whether extracted owners are actually reducing the coordination surface."@
    } else {
        "The cycle prevents clean layering and makes initialization order and refactors harder to isolate."@
    }
}

fn cycle_impact(tags: &Vec<String>) -> (r: String)
    ensures
        r@ == cycle_impact_of(tags.deep_view()),
{
    if texts_contain(tags, "component_barrel") {
        "The cycle touches a component-facing barrel, which makes it harder to keep broad component access separate from deeper app and runtime seams.".to_string()
    } else if texts_contain(tags, "guarded_boundary") {
        "The cycle crosses a guardrail-backed boundary, which increases refactor friction and makes it harder to keep the intended layering intact.".to_string()
    } else if texts_contain(tags, "facade_with_extracted_owners") {
        "The cycle still touches a guarded facade, which can hide whether extracted owners are actually reducing the coordination surface.".to_string()
    } else {
        "The cycle prevents clean layering and makes initialization order and refactors harder to isolate.".to_string()
    }
}

/// What to inspect in a cycle with these role tags.
pub open spec fn cycle_focus_of(tags: Seq<Text>) -> Seq<Text> {
    if tags.contains("component_barrel"@) {
        seq![
            "inspect whether the best cut keeps component-facing barrel access while moving deeper orchestration behind a narrower seam"@,
            "inspect whether app or runtime dependencies can stop flowing back through the shared barrel"@,
        ]
    } else if tags.contains("guarded_boundary"@) {
        seq![
            "inspect whether the best cut preserves the guardrail-backed boundary instead of widening it"@,
            "inspect whether boundary callers can move to narrower authority modules"@,
        ]
    } else if tags.contains("facade_with_extracted_owners"@) {
        seq![
            "inspect whether the cycle runs through a facade that should stay thin"@,
            "inspect whether extracted owner modules can absorb the back-edge instead of routing it through the facade"@,
        ]
    } else {
        seq![
            "inspect whether one back-edge can be removed by splitting contracts from implementations"@,
            "inspect whether shared types can move to a lower-dependency seam"@,
        ]
    }
}

fn cycle_focus(tags: &Vec<String>) -> (r: Vec<String>)
    ensures
        r.deep_view() == cycle_focus_of(tags.deep_view()),
{
    if texts_contain(tags, "component_barrel") {
        two_lines(
            "inspect whether the best cut keeps component-facing barrel access while moving deeper orchestration behind a narrower seam",
            "inspect whether app or runtime dependencies can stop flowing back through the shared barrel",
        )
    } else if texts_contain(tags, "guarded_boundary") {
        two_lines(
            "inspect whether the best cut preserves the guardrail-backed boundary instead of widening it",
            "inspect whether boundary callers can move to narrower authority modules",
        )
    } else if texts_contain(tags, "facade_with_extracted_owners") {
        two_lines(
            "inspect whether the cycle runs through a facade that should stay thin",
            "inspect whether extracted owner modules can absorb the back-edge instead of routing it through the facade",
        )
    } else {
        two_lines(
            "inspect whether one back-edge can be removed by splitting contracts from implementations",
            "inspect whether shared types can move to a lower-dependency seam",
        )
    }
}

/// The text with each `_` replaced by a space.
pub open spec fn underscores_to_spaces(t: Text) -> Text {
    t.map_values(|c: char| if c == '_' { ' ' } else { c })
}

fn replace_underscores(s: &str) -> (r: String)
    ensures
        r@ == underscores_to_spaces(s@),
{
    let v = crate::text::chars_of(s);
    let mut out: Vec<char> = Vec::new();
    let mut i: usize = 0;
    while i < v.len()
        invariant
            v@ == s@,
            i <= v@.len(),
            out@ == underscores_to_spaces(s@).take(i as int),
        decreases v@.len() - i,
    {
        if v[i] == '_' {
            out.push(' ');
        } else {
            out.push(v[i]);
        }
        i = i + 1;
        assert(out@ =~= underscores_to_spaces(s@).take(i as int));
    }
    assert(underscores_to_spaces(s@).take(v@.len() as int) =~= underscores_to_spaces(s@));
    crate::text::text_from_chars(&out)
}

/// `a + b`, or the largest `usize` where that overflows.
pub open spec fn sat_add(a: usize, b: usize) -> usize {
    if a + b > usize::MAX { usize::MAX } else { (a + b) as usize }
}

/// The lines of the files of a cycle, summed (saturating).
pub open spec fn cycle_lines(files: Seq<Text>, facts: Seq<FileFacts>) -> usize
    decreases files.len(),
{
    if files.len() == 0 {
        0
    } else {
        sat_add(cycle_lines(files.drop_last(), facts), crate::structural::cycles::lines_at(facts, files.last()))
    }
}

/// The complexity of the facts of `p`, or none.
pub open spec fn complexity_at(facts: Seq<FileFacts>, p: Text) -> u32 {
    match crate::structural::graph::fact_index(facts, p) {
        Some(i) => facts[i].max_complexity,
        None => 0,
    }
}

/// The peak function complexity over the files of a cycle.
pub open spec fn cycle_peak(files: Seq<Text>, facts: Seq<FileFacts>) -> u32
    decreases files.len(),
{
    if files.len() == 0 {
        0
    } else {
        let prev = cycle_peak(files.drop_last(), facts);
        let c = complexity_at(facts, files.last());
        if c > prev { c } else { prev }
    }
}

/// The contextual role tags of the files of a cycle, file by file.
pub open spec fn cycle_raw_tags(files: Seq<Text>, facts: Seq<FileFacts>, imports: Seq<(Text, Text)>) -> Seq<Text>
    decreases files.len(),
{
    if files.len() == 0 {
        Seq::empty()
    } else {
        cycle_raw_tags(files.drop_last(), facts, imports) + match crate::structural::graph::fact_index(facts, files.last()) {
            Some(i) => contextual_roles_of(files.last(), facts[i].role_tags.deep_view(), facts, imports),
            None => Seq::empty(),
        }
    }
}

fn cycle_totals(files: &Vec<String>, facts: &Vec<FileFacts>, g: &StructuralGraph) -> (r: (usize, u32, Vec<String>))
    ensures
        r.0 == cycle_lines(files.deep_view(), facts@),
        r.1 == cycle_peak(files.deep_view(), facts@),
        r.2.deep_view() == dedupe(cycle_raw_tags(files.deep_view(), facts@, edge_view(g.import_edges@))),
{
    let ghost fv = files.deep_view();
    let mut total_lines: usize = 0;
    let mut max_complexity: u32 = 0;
    let mut all_tags: Vec<String> = Vec::new();
    let mut i: usize = 0;
    while i < files.len()
        invariant
            i <= fv.len(),
            fv == files.deep_view(),
            total_lines == cycle_lines(fv.take(i as int), facts@),
            max_complexity == cycle_peak(fv.take(i as int), facts@),
            all_tags.deep_view() == cycle_raw_tags(fv.take(i as int), facts@, edge_view(g.import_edges@)),
        decreases fv.len() - i,
    {
        assert(fv.take(i as int + 1).drop_last() =~= fv.take(i as int));
        assert(fv.take(i as int + 1).last() == files@[i as int]@);
        match find_facts(facts, files[i].as_str()) {
            Some(k) => {
                let f = &facts[k];
                total_lines = if total_lines > usize::MAX - f.lines {
                    usize::MAX
                } else {
                    total_lines + f.lines
                };
                if f.max_complexity > max_complexity {
                    max_complexity = f.max_complexity;
                }
                let tags = contextual_role_tags(files[i].as_str(), &f.role_tags, facts, &g.import_edges);
                crate::structural::facts::append_all(&mut all_tags, &tags);
            },
            None => {
                assert(all_tags.deep_view() =~= cycle_raw_tags(fv.take(i as int + 1), facts@, edge_view(g.import_edges@)));
            },
        }
        i = i + 1;
    }
    assert(fv.take(fv.len() as int) =~= fv);
    let role_tags = dedupe_strings_preserve_order(&all_tags);
    (total_lines, max_complexity, role_tags)
}

/// The cut candidates of a cycle (see `cycle_cut_candidates`).
pub open spec fn is_cut_list(cs: Seq<CycleCutCandidate>, files: Seq<Text>, facts: Seq<FileFacts>, g: StructuralGraph) -> bool {
    &&& cs.len() <= 3
    &&& ranked_order(cs)
    &&& exists|planned: Seq<CycleCutCandidate>, all: Seq<CycleCutCandidate>|
        {
            &&& crate::structural::cycles::cut_candidates_of(planned, sorted_set(files.to_set()), facts, g)
            &&& #[trigger] all.to_multiset() == #[trigger] planned.to_multiset()
            &&& ranked_order(all)
            &&& cs == all.take(if all.len() < 3 { all.len() as int } else { 3 })
        }
    &&& forall|i: int| 0 <= i < cs.len() ==> (#[trigger] cs[i]).reduction_file_count <= files.len()
}

/// The ends of each cut, source then target, cut by cut.
pub open spec fn cut_ends(cs: Seq<CycleCutCandidate>) -> Seq<Text>
    decreases cs.len(),
{
    if cs.len() == 0 {
        Seq::empty()
    } else {
        cut_ends(cs.drop_last()) + seq![cs.last().source@, cs.last().target@]
    }
}

/// The split axes the cuts suggest: their seam kinds in words, or the
/// contract boundary when there is no cut.
pub open spec fn cut_axes(cs: Seq<CycleCutCandidate>) -> Seq<Text> {
    if cs.len() == 0 {
        seq!["contract boundary"@]
    } else {
        cs.map_values(|c: CycleCutCandidate| underscores_to_spaces(c.seam_kind@))
    }
}

/// The evidence line of the best cut.
pub open spec fn best_cut_line(cs: Seq<CycleCutCandidate>) -> Text {
    if cs.len() > 0 {
        "best cut candidate: "@ + cs[0].source@ + " -> "@ + cs[0].target@ + " (removes "@ + dec(
            cs[0].reduction_file_count as nat,
        ) + " cyclic files)"@
    } else {
        "best cut candidate: none"@
    }
}

/// The evidence line of the role tags.
pub open spec fn role_tags_line(tags: Seq<Text>) -> Text {
    if tags.len() == 0 {
        "role tags: none"@
    } else {
        "role tags in cycle: "@ + join(tags, ", "@)
    }
}

/// Up to three edges (`source -> target`) of the list between distinct files
/// of the cycle, in order, each once.
pub open spec fn representative_edge_lines(files: Seq<Text>, edges: Seq<(Text, Text)>) -> Seq<Text>
    decreases edges.len(),
{
    if edges.len() == 0 {
        Seq::empty()
    } else {
        let prev = representative_edge_lines(files, edges.drop_last());
        let e = edges.last();
        let line = e.0 + " -> "@ + e.1;
        if prev.len() < 3 && e.0 != e.1 && files.contains(e.0) && files.contains(e.1) && !prev.contains(line) {
            prev.push(line)
        } else {
            prev
        }
    }
}

/// How the files of a cycle are linked: by imports, by calls only, or both.
pub open spec fn edge_basis(imports: Seq<Text>, calls: Seq<Text>) -> Text {
    if imports.len() > 0 && calls.len() > 0 {
        "mixed"@
    } else if calls.len() > 0 {
        "interaction/call-only"@
    } else {
        "import"@
    }
}

/// The signal families of a cycle by how its files are linked.
pub open spec fn cycle_families(imports: Seq<Text>, calls: Seq<Text>) -> Seq<Text> {
    seq!["dependency"@, "layering"@] + (if imports.len() > 0 && calls.len() > 0 {
        seq!["mixed_cycle"@]
    } else if calls.len() > 0 {
        seq!["interaction_cycle"@]
    } else {
        Seq::empty()
    })
}

/// The summary of a cycle by how its files are linked.
pub open spec fn cycle_summary(files: Seq<Text>, imports: Seq<Text>, calls: Seq<Text>) -> Text {
    "Files "@ + join(files, ", "@) + (if imports.len() > 0 && calls.len() > 0 {
        " form a mixed import/interaction dependency cycle"@
    } else if calls.len() > 0 {
        " form an interaction/call-only dependency cycle"@
    } else {
        " form a dependency cycle"@
    })
}

/// The evidence lines of a cycle, before repeats are dropped.
pub open spec fn cycle_evidence(
    n: nat,
    total: usize,
    peak: u32,
    cuts: Seq<CycleCutCandidate>,
    tags: Seq<Text>,
    imports: Seq<Text>,
    calls: Seq<Text>,
) -> Seq<Text> {
    seq![
        "cycle size: "@ + dec(n) + ""@,
        "total lines in cycle: "@ + dec(total as nat) + ""@,
        "peak function complexity inside cycle: "@ + dec(peak as nat) + ""@,
        "candidate cuts: "@ + dec(cuts.len()) + ""@,
        best_cut_line(cuts),
        role_tags_line(tags),
        "edge basis: "@ + edge_basis(imports, calls),
    ] + (if imports.len() > 0 {
        seq!["representative import edges: "@ + join(imports, ", "@)]
    } else {
        Seq::empty()
    }) + (if calls.len() > 0 {
        seq!["representative interaction/call edges: "@ + join(calls, ", "@)]
    } else {
        Seq::empty()
    })
}

/// `r` is the dependency-cycle report of the cycle over `files`.
pub open spec fn is_cycle_report(r: StructuralDebtReport, files: Seq<Text>, facts: Seq<FileFacts>, g: StructuralGraph) -> bool {
    let cuts = r.cut_candidates@;
    let total = cycle_lines(files, facts);
    let peak = cycle_peak(files, facts);
    let tags = dedupe(cycle_raw_tags(files, facts, edge_view(g.import_edges@)));
    let imports = representative_edge_lines(files, edge_view(g.import_edges@));
    let calls = representative_edge_lines(files, edge_view(g.call_edges@));
    let full = cycle_cluster_score_of(files.len() as usize, total, tags, cuts);
    let score = if imports.len() == 0 && calls.len() > 0 && full > 4900 { 4900 } else { full };
    let kind = "cycle_cluster"@;
    let first = if files.len() > 0 { files[0] } else { Seq::empty() };
    &&& is_cut_list(cuts, files, facts, g)
    &&& r.kind@ == kind
    &&& r.trust_tier == StructuralTrustTier::Watchpoint
    &&& r.presentation_class == presentation_of(kind, first, StructuralTrustTier::Watchpoint, tags)
    &&& r.leverage_class == leverage_of(kind, StructuralTrustTier::Watchpoint, r.presentation_class, tags, r.metrics)
    &&& r.leverage_reasons.deep_view() == leverage_reasons_of(r.leverage_class, kind, tags, r.metrics)
    &&& r.scope@ == "cycle:"@ + join(files, "|"@)
    &&& r.signal_class == StructuralSignalClass::Watchpoint
    &&& r.signal_families.deep_view() == cycle_families(imports, calls)
    &&& r.score_0_10000 == score
    &&& r.severity == severity_of_score(score)
    &&& r.summary@ == cycle_summary(files, imports, calls)
    &&& r.impact@ == cycle_impact_of(tags)
    &&& r.files.deep_view() == files
    &&& r.role_tags.deep_view() == tags
    &&& r.evidence.deep_view() == dedupe(cycle_evidence(files.len(), total, peak, cuts, tags, imports, calls))
    &&& r.inspection_focus.deep_view() == cycle_focus_of(tags)
    &&& r.candidate_split_axes.deep_view() == dedupe(cut_axes(cuts))
    &&& r.related_surfaces.deep_view() == dedupe(
        cut_ends(cuts) + files.take(if files.len() < 3 { files.len() as int } else { 3 }),
    )
    &&& r.metrics.file_count == Some(files.len() as usize)
    &&& r.metrics.line_count == Some(total)
    &&& r.metrics.function_count is None
    &&& r.metrics.fan_in is None
    &&& r.metrics.fan_out is None
    &&& r.metrics.instability_0_10000 is None
    &&& r.metrics.dead_symbol_count is None
    &&& r.metrics.dead_line_count is None
    &&& r.metrics.cycle_size == Some(files.len() as usize)
    &&& r.metrics.max_complexity == Some(peak)
    &&& r.metrics.inbound_reference_count is None
    &&& r.metrics.public_surface_count is None
    &&& r.metrics.reachable_from_tests is None
    &&& r.metrics.cut_candidate_count == Some(cuts.len() as usize)
    &&& r.metrics.largest_cycle_after_best_cut == Some(
        if cuts.len() > 0 { cuts[0].remaining_cycle_size } else { files.len() as usize },
    )
    &&& r.metrics.guardrail_test_count is None
    &&& r.metrics.role_count == Some(tags.len() as usize)
}

fn cut_surfaces(cuts: &Vec<CycleCutCandidate>, files: &Vec<String>) -> (r: (Vec<String>, Vec<String>))
    ensures
        r.0.deep_view() == dedupe(cut_ends(cuts@) + files.deep_view().take(if files@.len() < 3 { files@.len() as int } else { 3 })),
        r.1.deep_view() == dedupe(cut_axes(cuts@)),
{
    let mut related: Vec<String> = Vec::new();
    let mut axes: Vec<String> = Vec::new();
    let mut c: usize = 0;
    while c < cuts.len()
        invariant
            c <= cuts@.len(),
            related.deep_view() == cut_ends(cuts@.take(c as int)),
            axes.deep_view() == cuts@.take(c as int).map_values(|x: CycleCutCandidate| underscores_to_spaces(x.seam_kind@)),
        decreases cuts@.len() - c,
    {
        assert(cuts@.take(c as int + 1).drop_last() =~= cuts@.take(c as int));
        let ghost before = related.deep_view();
        push_line(&mut related, cuts[c].source.clone());
        push_line(&mut related, cuts[c].target.clone());
        assert(related.deep_view() =~= before + seq![cuts@[c as int].source@, cuts@[c as int].target@]);
        let ax = replace_underscores(cuts[c].seam_kind.as_str());
        push_line(&mut axes, ax);
        assert(axes.deep_view() =~= cuts@.take(c as int + 1).map_values(|x: CycleCutCandidate| underscores_to_spaces(x.seam_kind@)));
        c = c + 1;
    }
    assert(cuts@.take(cuts@.len() as int) =~= cuts@);
    let first_files = first_values(files, 3);
    crate::structural::facts::append_all(&mut related, &first_files);
    let related = dedupe_strings_preserve_order(&related);
    if axes.len() == 0 {
        push_line(&mut axes, "contract boundary".to_string());
        assert(axes.deep_view() =~= seq!["contract boundary"@]);
    }
    let axes = dedupe_strings_preserve_order(&axes);
    (related, axes)
}

fn best_cut_text(cuts: &Vec<CycleCutCandidate>) -> (r: String)
    ensures
        r@ == best_cut_line(cuts@),
{
    if cuts.len() > 0 {
        let mut s = "best cut candidate: ".to_string();
        s.append(cuts[0].source.as_str());
        s.append(" -> ");
        s.append(cuts[0].target.as_str());
        s.append(" (removes ");
        let d = decimal(cuts[0].reduction_file_count as u64);
        s.append(d.as_str());
        s.append(" cyclic files)");
        s
    } else {
        "best cut candidate: none".to_string()
    }
}

fn role_tags_text(tags: &Vec<String>) -> (r: String)
    ensures
        r@ == role_tags_line(tags.deep_view()),
{
    if tags.len() == 0 {
        "role tags: none".to_string()
    } else {
        let mut s = "role tags in cycle: ".to_string();
        let j = join_texts(tags, ", ");
        s.append(j.as_str());
        s
    }
}

/// Up to three edges (`source -> target`) of the list between distinct files
/// of the cycle, in order, each once.
fn representative_edges(files: &Vec<String>, edges: &Vec<(String, String)>) -> (r: Vec<String>)
    ensures
        r.deep_view() == representative_edge_lines(files.deep_view(), edge_view(edges@)),
{
    let ghost ev = edge_view(edges@);
    let mut r: Vec<String> = Vec::new();
    let mut i: usize = 0;
    while i < edges.len()
        invariant
            i <= edges@.len(),
            ev == edge_view(edges@),
            r.deep_view() == representative_edge_lines(files.deep_view(), ev.take(i as int)),
        decreases edges@.len() - i,
    {
        assert(ev.take(i as int + 1).drop_last() =~= ev.take(i as int));
        assert(ev.take(i as int + 1).last() == ev[i as int]);
        let s = &edges[i].0;
        let t = &edges[i].1;
        let mut line = s.clone();
        line.append(" -> ");
        line.append(t.as_str());
        let ghost before = r.deep_view();
        if r.len() < 3 && !text_eq(s.as_str(), t.as_str()) && texts_contain(files, s.as_str()) && texts_contain(
            files,
            t.as_str(),
        ) && !texts_contain(&r, line.as_str()) {
            push_line(&mut r, line);
            assert(r.deep_view() =~= before.push(s@ + " -> "@ + t@));
        }
        i = i + 1;
    }
    assert(ev.take(edges@.len() as int) =~= ev);
    r
}

/// The dependency-cycle report of one listed cycle.
pub fn cycle_cluster_report(files: &Vec<String>, facts: &Vec<FileFacts>, g: &StructuralGraph) -> (r: StructuralDebtReport)
    requires
        (files@.len() as u32) * 800 <= u32::MAX,
        g.import_edges@.len() + 1 < usize::MAX,
    ensures
        is_cycle_report(r, files.deep_view(), facts@, *g),
{
    let mut scope = "cycle:".to_string();
    let joined = join_texts(files, "|");
    scope.append(joined.as_str());
    let (total_lines, max_complexity, role_tags) = cycle_totals(files, facts, g);
    let cuts = cycle_cut_candidates(files, facts, g);
    let import_lines = representative_edges(files, &g.import_edges);
    let call_lines = representative_edges(files, &g.call_edges);
    let ghost imports = import_lines.deep_view();
    let ghost calls = call_lines.deep_view();
    let basis = if import_lines.len() > 0 && call_lines.len() > 0 {
        "mixed"
    } else if call_lines.len() > 0 {
        "interaction/call-only"
    } else {
        "import"
    };
    proof {
        if cuts@.len() > 0 {
            crate::structural::scoring::lemma_cut_bonus_bounded(files@.len() as nat, cuts@[0]);
        }
    }
    let full_score = cycle_cluster_score(files.len(), total_lines, &role_tags, &cuts);
    let score = if import_lines.len() == 0 && call_lines.len() > 0 && full_score > 4900 {
        4900
    } else {
        full_score
    };
    let cut_count = cuts.len();
    let largest_after = if cuts.len() > 0 {
        cuts[0].remaining_cycle_size
    } else {
        files.len()
    };
    let (related, axes) = cut_surfaces(&cuts, files);
    let best = best_cut_text(&cuts);
    let tags_line = role_tags_text(&role_tags);
    let mut evidence: Vec<String> = Vec::new();
    push_line(&mut evidence, phrase("cycle size: ", files.len() as u64, ""));
    push_line(&mut evidence, phrase("total lines in cycle: ", total_lines as u64, ""));
    push_line(&mut evidence, phrase("peak function complexity inside cycle: ", max_complexity as u64, ""));
    push_line(&mut evidence, phrase("candidate cuts: ", cuts.len() as u64, ""));
    push_line(&mut evidence, best);
    push_line(&mut evidence, tags_line);
    let mut basis_line = "edge basis: ".to_string();
    basis_line.append(basis);
    push_line(&mut evidence, basis_line);
    if import_lines.len() > 0 {
        let mut line = "representative import edges: ".to_string();
        let j = join_texts(&import_lines, ", ");
        line.append(j.as_str());
        push_line(&mut evidence, line);
    }
    if call_lines.len() > 0 {
        let mut line = "representative interaction/call edges: ".to_string();
        let j = join_texts(&call_lines, ", ");
        line.append(j.as_str());
        push_line(&mut evidence, line);
    }
    assert(evidence.deep_view() =~= cycle_evidence(
        files@.len() as nat,
        total_lines,
        max_complexity,
        cuts@,
        role_tags.deep_view(),
        imports,
        calls,
    ));
    let evidence = dedupe_strings_preserve_order(&evidence);
    let first = if files.len() > 0 {
        files[0].clone()
    } else {
        String::new()
    };
    let presentation = structural_presentation_class("cycle_cluster", first.as_str(), StructuralTrustTier::Watchpoint, &role_tags);
    let mut summary = "Files ".to_string();
    let j = join_texts(files, ", ");
    summary.append(j.as_str());
    if import_lines.len() > 0 && call_lines.len() > 0 {
        summary.append(" form a mixed import/interaction dependency cycle");
    } else if call_lines.len() > 0 {
        summary.append(" form an interaction/call-only dependency cycle");
    } else {
        summary.append(" form a dependency cycle");
    }
    let mut families = two_lines("dependency", "layering");
    if import_lines.len() > 0 && call_lines.len() > 0 {
        push_line(&mut families, "mixed_cycle".to_string());
    } else if call_lines.len() > 0 {
        push_line(&mut families, "interaction_cycle".to_string());
    }
    assert(families.deep_view() =~= cycle_families(imports, calls));
    let role_count = role_tags.len();
    let impact = cycle_impact(&role_tags);
    let focus = cycle_focus(&role_tags);
    let mut report = StructuralDebtReport {
        kind: "cycle_cluster".to_string(),
        trust_tier: StructuralTrustTier::Watchpoint,
        presentation_class: presentation,
        leverage_class: StructuralLeverageClass::SecondaryCleanup,
        scope,
        signal_class: StructuralSignalClass::Watchpoint,
        signal_families: families,
        severity: signal_severity(score),
        score_0_10000: score,
        summary,
        impact,
        files: crate::clone_groups::copy_strings(files),
        inspection_focus: focus,
        role_tags,
        leverage_reasons: Vec::new(),
        evidence,
        candidate_split_axes: axes,
        related_surfaces: related,
        cut_candidates: cuts,
        metrics: StructuralDebtMetrics {
            file_count: Some(files.len()),
            line_count: Some(total_lines),
            function_count: None,
            fan_in: None,
            fan_out: None,
            instability_0_10000: None,
            dead_symbol_count: None,
            dead_line_count: None,
            cycle_size: Some(files.len()),
            max_complexity: Some(max_complexity),
            inbound_reference_count: None,
            public_surface_count: None,
            reachable_from_tests: None,
            cut_candidate_count: Some(cut_count),
            largest_cycle_after_best_cut: Some(largest_after),
            guardrail_test_count: None,
            role_count: Some(role_count),
        },
    };
    proof {
        let copied = report.files;
        assert(copied@ == files@);
        assert(copied.deep_view() =~= files.deep_view());
    }
    annotate_structural_leverage(&mut report);
    report
}

/// Every listed cycle has at most 5,000,000 files.
pub open spec fn cycles_bounded(health: HealthReport) -> bool {
    forall|i: int| 0 <= i < health.circular_dep_files@.len() ==> ((#[trigger] health.circular_dep_files@[i])@.len() as u32) * 800 <= u32::MAX
}

/// The dependency-cycle reports of the listed cycles, one per cycle.
pub fn build_cycle_cluster_reports(health: &HealthReport, facts: &Vec<FileFacts>, g: &StructuralGraph) -> (r: Vec<
    StructuralDebtReport,
>)
    requires
        cycles_bounded(*health),
        g.import_edges@.len() + 1 < usize::MAX,
    ensures
        cycle_cluster_reports_of(r@, *health, facts@, *g),
{
    let mut r: Vec<StructuralDebtReport> = Vec::new();
    let mut i: usize = 0;
    while i < health.circular_dep_files.len()
        invariant
            cycles_bounded(*health),
            g.import_edges@.len() + 1 < usize::MAX,
            i <= health.circular_dep_files@.len(),
            r@.len() == i,
            forall|k: int|
                0 <= k < i ==> is_cycle_report(#[trigger] r@[k], health.circular_dep_files@[k].deep_view(), facts@, *g),
        decreases health.circular_dep_files@.len() - i,
    {
        r.push(cycle_cluster_report(&health.circular_dep_files[i], facts, g));
        i = i + 1;
    }
    r
}

/// The files with dead functions, in increasing order.
pub open spec fn dead_files(dead: Seq<FuncMetric>) -> Seq<Text> {
    sorted_set(dead.map_values(|d: FuncMetric| d.file@).to_set())
}

/// The dead functions of file `p`.
pub open spec fn dead_names_of(dead: Seq<FuncMetric>, p: Text) -> Seq<Text>
    decreases dead.len(),
{
    if dead.len() == 0 {
        Seq::empty()
    } else {
        let prev = dead_names_of(dead.drop_last(), p);
        if dead.last().file@ == p {
            prev.push(dead.last().func@)
        } else {
            prev
        }
    }
}

/// The distinct dead functions of file `p`, in increasing order.
pub open spec fn dead_names(dead: Seq<FuncMetric>, p: Text) -> Seq<Text> {
    sorted_set(dead_names_of(dead, p).to_set())
}

/// The largest reported size of function `n` of file `p`.
pub open spec fn dead_size(dead: Seq<FuncMetric>, p: Text, n: Text) -> usize
    decreases dead.len(),
{
    if dead.len() == 0 {
        0
    } else {
        let prev = dead_size(dead.drop_last(), p, n);
        let d = dead.last();
        if d.file@ == p && d.func@ == n && d.value > prev {
            d.value
        } else {
            prev
        }
    }
}

/// The summed sizes of the named dead functions, saturating at `usize::MAX`.
pub open spec fn dead_lines_of(dead: Seq<FuncMetric>, p: Text, names: Seq<Text>) -> usize
    decreases names.len(),
{
    if names.len() == 0 {
        0
    } else {
        let prev = dead_lines_of(dead, p, names.drop_last());
        let v = dead_size(dead, p, names.last());
        if prev > usize::MAX - v {
            usize::MAX
        } else {
            (prev + v) as usize
        }
    }
}

/// A file with dead functions gets a report: it has two or more of them or
/// 40 or more dead lines, it was analysed, and its counts fit the score.
pub open spec fn dead_private_kept(dead: Seq<FuncMetric>, facts: Seq<FileFacts>, p: Text) -> bool {
    let symbols = dead_names(dead, p).len() as usize;
    let lines = dead_lines_of(dead, p, dead_names(dead, p));
    &&& !(symbols < 2 && lines < 40)
    &&& fact_index(facts, p) is Some
    &&& (symbols as u32) * 900 <= u32::MAX
    &&& (lines as u32) * 18 <= u32::MAX
}

/// The files that get a dead-private report, in increasing order.
pub open spec fn dead_private_files(dead: Seq<FuncMetric>, facts: Seq<FileFacts>, files: Seq<Text>) -> Seq<Text>
    decreases files.len(),
{
    if files.len() == 0 {
        Seq::empty()
    } else {
        let prev = dead_private_files(dead, facts, files.drop_last());
        if dead_private_kept(dead, facts, files.last()) {
            prev.push(files.last())
        } else {
            prev
        }
    }
}

/// `r` is the dead-private report of file `path` with its dead functions
/// `names` totalling `lines` lines.
pub open spec fn is_dead_private_report(
    r: StructuralDebtReport,
    path: Text,
    names: Seq<Text>,
    lines: usize,
    facts: FileFacts,
) -> bool {
    let symbols = names.len() as usize;
    let score = dead_private_score_of(symbols, lines);
    let kind = "dead_private_code_cluster"@;
    let tags = facts.role_tags.deep_view();
    &&& r.kind@ == kind
    &&& r.trust_tier == StructuralTrustTier::Experimental
    &&& r.presentation_class == presentation_of(kind, path, StructuralTrustTier::Experimental, tags)
    &&& r.leverage_class == leverage_of(kind, StructuralTrustTier::Experimental, r.presentation_class, tags, r.metrics)
    &&& r.scope@ == path
    &&& r.signal_class == StructuralSignalClass::Watchpoint
    &&& r.signal_families.deep_view() == seq!["staleness"@, "maintainability"@]
    &&& r.score_0_10000 == score
    &&& r.severity == severity_of_score(score)
    &&& r.summary@ == "File '"@ + path + "' contains "@ + dec(symbols as nat) + " uncalled private functions totaling "@
        + dec(lines as nat) + " lines"@
    &&& r.files.deep_view() == seq![path]
    &&& r.role_tags.deep_view() == tags
    &&& r.evidence.deep_view() == dedupe(
        seq![
            "dead private functions: "@ + dec(symbols as nat),
            "dead private lines: "@ + dec(lines as nat),
            "sample dead functions: "@ + join(names.take(if names.len() < 3 { names.len() as int } else { 3 }), ", "@),
            "total file lines: "@ + dec(facts.lines as nat),
        ],
    )
    &&& r.cut_candidates@.len() == 0
    &&& r.metrics == (StructuralDebtMetrics {
        file_count: Some(1usize),
        line_count: Some(facts.lines),
        function_count: Some(facts.function_count),
        dead_symbol_count: Some(symbols),
        dead_line_count: Some(lines),
        max_complexity: Some(facts.max_complexity),
        role_count: Some(facts.role_tags@.len() as usize),
        ..crate::structural::no_metrics()
    })
    &&& r.inspection_focus.deep_view() == seq![
        "inspect whether the dead helpers should be deleted or intentionally reconnected"@,
        "inspect whether the file still reflects the supported control flow"@,
    ]
    &&& r.candidate_split_axes@.len() == 0
    &&& r.related_surfaces@.len() == 0
    &&& r.leverage_reasons.deep_view() == leverage_reasons_of(r.leverage_class, kind, tags, r.metrics)
}

/// The names and summed size of the dead functions of `path`.
fn dead_function_summary(dead: &Vec<FuncMetric>, path: &str) -> (r: (Vec<String>, usize))
    ensures
        r.0.deep_view() == dead_names(dead@, path@),
        r.1 == dead_lines_of(dead@, path@, dead_names(dead@, path@)),
{
    let ghost dv = dead@;
    let mut names: Vec<String> = Vec::new();
    let mut j: usize = 0;
    assert(dv.take(0) =~= Seq::<FuncMetric>::empty());
    assert(names.deep_view() =~= Seq::<Text>::empty());
    while j < dead.len()
        invariant
            dv == dead@,
            j <= dv.len(),
            names.deep_view() == dead_names_of(dv.take(j as int), path@),
        decreases dv.len() - j,
    {
        assert(dv.take(j + 1).drop_last() =~= dv.take(j as int));
        assert(dv.take(j + 1).last() == dv[j as int]);
        if text_eq(dead[j].file.as_str(), path) {
            push_line(&mut names, dead[j].func.clone());
        }
        j = j + 1;
    }
    assert(dv.take(dv.len() as int) =~= dv);
    let unique = crate::grouping::sorted_set_of(&names);
    let ghost uv = unique.deep_view();
    let mut dead_lines: usize = 0;
    let mut u: usize = 0;
    assert(uv.take(0) =~= Seq::<Text>::empty());
    while u < unique.len()
        invariant
            dv == dead@,
            uv == unique.deep_view(),
            u <= uv.len(),
            dead_lines == dead_lines_of(dv, path@, uv.take(u as int)),
        decreases uv.len() - u,
    {
        let mut best: usize = 0;
        let mut j: usize = 0;
        assert(dv.take(0) =~= Seq::<FuncMetric>::empty());
        while j < dead.len()
            invariant
                dv == dead@,
                uv == unique.deep_view(),
                u < uv.len(),
                j <= dv.len(),
                best == dead_size(dv.take(j as int), path@, uv[u as int]),
            decreases dv.len() - j,
        {
            assert(dv.take(j + 1).drop_last() =~= dv.take(j as int));
            assert(dv.take(j + 1).last() == dv[j as int]);
            let d = &dead[j];
            if text_eq(d.file.as_str(), path) && text_eq(d.func.as_str(), unique[u].as_str()) && d.value > best {
                best = d.value;
            }
            j = j + 1;
        }
        assert(dv.take(dv.len() as int) =~= dv);
        assert(uv.take(u + 1).drop_last() =~= uv.take(u as int));
        assert(uv.take(u + 1).last() == uv[u as int]);
        dead_lines = if dead_lines > usize::MAX - best {
            usize::MAX
        } else {
            dead_lines + best
        };
        u = u + 1;
    }
    assert(uv.take(uv.len() as int) =~= uv);
    (unique, dead_lines)
}

/// The dead-private-code reports: one per analysed file with two or more
/// distinct dead functions or 40 or more dead lines, in increasing path
/// order (see `dead_private_kept` and `is_dead_private_report`).
pub fn build_dead_private_code_cluster_reports(health: &HealthReport, facts: &Vec<FileFacts>) -> (r: Vec<
    StructuralDebtReport,
>)
    ensures
        dead_private_reports_of(r@, *health, facts@),
{
    let ghost dv = health.dead_functions@;
    let mut dead_files_list: Vec<String> = Vec::new();
    let mut i: usize = 0;
    while i < health.dead_functions.len()
        invariant
            dv == health.dead_functions@,
            i <= dv.len(),
            dead_files_list.deep_view() == dv.take(i as int).map_values(|d: FuncMetric| d.file@),
        decreases dv.len() - i,
    {
        push_line(&mut dead_files_list, health.dead_functions[i].file.clone());
        assert(dead_files_list.deep_view() =~= dv.take(i + 1).map_values(|d: FuncMetric| d.file@));
        i = i + 1;
    }
    assert(dv.take(dv.len() as int) =~= dv);
    let files = crate::grouping::sorted_set_of(&dead_files_list);
    let ghost fv = files.deep_view();
    let mut r: Vec<StructuralDebtReport> = Vec::new();
    let mut f: usize = 0;
    assert(fv.take(0) =~= Seq::<Text>::empty());
    while f < files.len()
        invariant
            dv == health.dead_functions@,
            fv == files.deep_view(),
            fv == dead_files(dv),
            f <= fv.len(),
            r@.len() == dead_private_files(dv, facts@, fv.take(f as int)).len(),
            forall|k: int|
                0 <= k < r@.len() ==> {
                    let p = dead_private_files(dv, facts@, fv.take(f as int))[k];
                    is_dead_private_report(
                        #[trigger] r@[k],
                        p,
                        dead_names(dv, p),
                        dead_lines_of(dv, p, dead_names(dv, p)),
                        facts_at(facts@, p),
                    )
                },
        decreases fv.len() - f,
    {
        assert(fv.take(f + 1).drop_last() =~= fv.take(f as int));
        assert(fv.take(f + 1).last() == fv[f as int]);
        let ghost prev = dead_private_files(dv, facts@, fv.take(f as int));
        let path = files[f].as_str();
        let (unique, dead_lines) = dead_function_summary(&health.dead_functions, path);
        let dead_symbols = unique.len();
        let mut kept = false;
        if !(dead_symbols < 2 && dead_lines < 40) {
            match find_facts(facts, path) {
                Some(k) => {
                    if (dead_symbols as u32 as u64) * 900 <= u32::MAX as u64 && (dead_lines as u32 as u64) * 18
                        <= u32::MAX as u64 {
                        r.push(dead_private_report(&files[f], dead_symbols, dead_lines, &unique, &facts[k]));
                        kept = true;
                    }
                },
                None => {},
            }
        }
        proof {
            if kept {
                assert(dead_private_files(dv, facts@, fv.take(f + 1)) == prev.push(fv[f as int]));
            } else {
                assert(dead_private_files(dv, facts@, fv.take(f + 1)) == prev);
            }
        }
        f = f + 1;
    }
    assert(fv.take(fv.len() as int) =~= fv);
    r
}

fn dead_private_report(path: &String, dead_symbols: usize, dead_lines: usize, names: &Vec<String>, facts: &FileFacts) -> (r:
    StructuralDebtReport)
    requires
        (dead_symbols as u32) * 900 <= u32::MAX,
        (dead_lines as u32) * 18 <= u32::MAX,
        dead_symbols == names@.len(),
    ensures
        is_dead_private_report(r, path@, names.deep_view(), dead_lines, *facts),
{
    let score = dead_private_cluster_score(dead_symbols, dead_lines);
    let sample = first_values(names, 3);
    let mut summary = "File '".to_string();
    summary.append(path.as_str());
    summary.append("' contains ");
    let d = decimal(dead_symbols as u64);
    summary.append(d.as_str());
    summary.append(" uncalled private functions totaling ");
    let l = decimal(dead_lines as u64);
    summary.append(l.as_str());
    summary.append(" lines");
    let mut evidence: Vec<String> = Vec::new();
    push_line(&mut evidence, labelled_number("dead private functions: ", dead_symbols as u64));
    push_line(&mut evidence, labelled_number("dead private lines: ", dead_lines as u64));
    let mut s = "sample dead functions: ".to_string();
    let j = join_texts(&sample, ", ");
    s.append(j.as_str());
    push_line(&mut evidence, s);
    push_line(&mut evidence, labelled_number("total file lines: ", facts.lines as u64));
    assert(evidence.deep_view() =~= seq![
        "dead private functions: "@ + dec(dead_symbols as nat),
        "dead private lines: "@ + dec(dead_lines as nat),
        "sample dead functions: "@ + join(names.deep_view().take(if names@.len() < 3 { names@.len() as int } else { 3 }), ", "@),
        "total file lines: "@ + dec(facts.lines as nat),
    ]);
    let evidence = dedupe_strings_preserve_order(&evidence);
    let presentation = structural_presentation_class(
        "dead_private_code_cluster",
        path.as_str(),
        StructuralTrustTier::Experimental,
        &facts.role_tags,
    );
    let mut files: Vec<String> = Vec::new();
    push_line(&mut files, path.clone());
    assert(files.deep_view() =~= seq![path@]);
    let mut report = StructuralDebtReport {
        kind: "dead_private_code_cluster".to_string(),
        trust_tier: StructuralTrustTier::Experimental,
        presentation_class: presentation,
        leverage_class: StructuralLeverageClass::SecondaryCleanup,
        scope: path.clone(),
        signal_class: StructuralSignalClass::Watchpoint,
        signal_families: two_lines("staleness", "maintainability"),
        severity: signal_severity(score),
        score_0_10000: score,
        summary,
        impact: "Stale private code increases maintenance noise and can mislead future edits into reviving obsolete paths.".to_string(),
        files,
        role_tags: crate::clone_groups::copy_strings(&facts.role_tags),
        leverage_reasons: Vec::new(),
        evidence,
        inspection_focus: two_lines(
            "inspect whether the dead helpers should be deleted or intentionally reconnected",
            "inspect whether the file still reflects the supported control flow",
        ),
        candidate_split_axes: Vec::new(),
        related_surfaces: Vec::new(),
        cut_candidates: Vec::new(),
        metrics: StructuralDebtMetrics {
            file_count: Some(1),
            line_count: Some(facts.lines),
            function_count: Some(facts.function_count),
            fan_in: None,
            fan_out: None,
            instability_0_10000: None,
            dead_symbol_count: Some(dead_symbols),
            dead_line_count: Some(dead_lines),
            cycle_size: None,
            max_complexity: Some(facts.max_complexity),
            inbound_reference_count: None,
            public_surface_count: None,
            reachable_from_tests: None,
            cut_candidate_count: None,
            largest_cycle_after_best_cut: None,
            guardrail_test_count: None,
            role_count: Some(facts.role_tags.len()),
        },
    };
    annotate_structural_leverage(&mut report);
    report
}

/// `label` followed by the decimal form of `n`.
fn labelled_number(label: &str, n: u64) -> (r: String)
    ensures
        r@ == label@ + dec(n as nat),
{
    let mut r = label.to_string();
    let d = decimal(n);
    r.append(d.as_str());
    r
}

fn move_all(dst: &mut Vec<StructuralDebtReport>, src: Vec<StructuralDebtReport>)
    ensures
        final(dst)@ == old(dst)@ + src@,
{
    let mut src = src;
    dst.append(&mut src);
}

/// The reports of every kind, computed over the analysed files' facts and
/// the dependency graph of the snapshot: large files, dependency sprawl,
/// unstable hotspots, cycle clusters, dead private code, dead islands.
pub open spec fn report_parts_of(
    parts: Seq<Seq<StructuralDebtReport>>,
    snapshot: Snapshot,
    health: HealthReport,
    facts: Seq<FileFacts>,
    g: StructuralGraph,
) -> bool {
    &&& parts.len() == 6
    &&& large_file_reports_of(parts[0], health, facts, g)
    &&& dependency_sprawl_reports_of(parts[1], health, facts, g)
    &&& unstable_hotspot_reports_of(parts[2], health, facts, g)
    &&& cycle_cluster_reports_of(parts[3], health, facts, g)
    &&& dead_private_reports_of(parts[4], health, facts)
    &&& crate::structural::islands::dead_island_reports_of(parts[5], snapshot, health, facts, g)
}

/// A report's severity follows its score, and its leverage class and
/// reasons follow its kind, trust tier, presentation, role tags and metrics.
pub open spec fn report_consistent(r: StructuralDebtReport) -> bool {
    &&& r.severity == severity_of_score(r.score_0_10000)
    &&& r.leverage_class == leverage_of(r.kind@, r.trust_tier, r.presentation_class, r.role_tags.deep_view(), r.metrics)
    &&& r.leverage_reasons.deep_view() == leverage_reasons_of(
        r.leverage_class,
        r.kind@,
        r.role_tags.deep_view(),
        r.metrics,
    )
}

proof fn lemma_parts_consistent(
    parts: Seq<Seq<StructuralDebtReport>>,
    snapshot: Snapshot,
    health: HealthReport,
    facts: Seq<FileFacts>,
    g: StructuralGraph,
)
    requires
        report_parts_of(parts, snapshot, health, facts, g),
    ensures
        forall|j: int, k: int| 0 <= j < 6 && 0 <= k < parts[j].len() ==> report_consistent(#[trigger] parts[j][k]),
{
    assert forall|j: int, k: int| 0 <= j < 6 && 0 <= k < parts[j].len() implies report_consistent(#[trigger] parts[j][k]) by {
        let x = parts[j][k];
        if j == 0 {
            assert(is_large_file_report(
                parts[0][k],
                analysed_metrics(health.long_files@, facts)[k].path@,
                analysed_metrics(health.long_files@, facts)[k].value,
                facts_at(facts, analysed_metrics(health.long_files@, facts)[k].path@),
                facts,
                g,
            ));
        } else if j == 1 {
            assert(is_dependency_sprawl_report(
                parts[1][k],
                analysed_metrics(health.god_files@, facts)[k].path@,
                facts_at(facts, analysed_metrics(health.god_files@, facts)[k].path@),
                facts,
                g,
            ));
        } else if j == 2 {
            assert(is_unstable_hotspot_report(
                parts[2][k],
                analysed_metrics(health.hotspot_files@, facts)[k].path@,
                facts_at(facts, analysed_metrics(health.hotspot_files@, facts)[k].path@),
                facts,
                g,
            ));
        } else if j == 3 {
            assert(is_cycle_report(parts[3][k], health.circular_dep_files@[k].deep_view(), facts, g));
        } else if j == 4 {
            let kept = dead_private_files(health.dead_functions@, facts, dead_files(health.dead_functions@));
            assert(is_dead_private_report(
                parts[4][k],
                kept[k],
                dead_names(health.dead_functions@, kept[k]),
                dead_lines_of(health.dead_functions@, kept[k], dead_names(health.dead_functions@, kept[k])),
                facts_at(facts, kept[k]),
            ));
        } else {
            crate::structural::islands::lemma_dead_island_consistent(parts[5], snapshot, health, facts, g, k);
            assert(x.role_tags.deep_view() =~= Seq::<Text>::empty());
        }
    }
}

/// Every report of the structural report list is consistent (see
/// `report_consistent`): its severity follows its score and its leverage
/// class and reasons follow from the report itself.
pub proof fn lemma_structural_reports_consistent(
    r: Seq<StructuralDebtReport>,
    snapshot: Snapshot,
    health: HealthReport,
    guardrails: Seq<GuardrailFileEvidence>,
)
    requires
        structural_reports_of(r, snapshot, health, guardrails),
    ensures
        forall|i: int| 0 <= i < r.len() ==> report_consistent(#[trigger] r[i]),
{
    broadcast use vstd::seq_lib::to_multiset_contains;

    let (facts, g, parts) = choose|facts: Seq<FileFacts>, g: StructuralGraph, parts: Seq<Seq<StructuralDebtReport>>|
        #![trigger report_parts_of(parts, snapshot, health, facts, g)]
        {
            &&& facts_of_snapshot(facts, snapshot, guardrails)
            &&& forall|a: int, b: int| 0 <= a < b < facts.len() ==> lex_lt((#[trigger] facts[a]).path@, (#[trigger] facts[b]).path@)
            &&& graph_of(g, snapshot)
            &&& report_parts_of(parts, snapshot, health, facts, g)
            &&& r.to_multiset() == (parts[0] + parts[1] + parts[2] + parts[3] + parts[4] + parts[5]).to_multiset()
            &&& crate::sorting::keeps_ties_in_order(r, parts[0] + parts[1] + parts[2] + parts[3] + parts[4] + parts[5])
        };
    lemma_parts_consistent(parts, snapshot, health, facts, g);
    let all = parts[0] + parts[1] + parts[2] + parts[3] + parts[4] + parts[5];
    assert forall|q: int| 0 <= q < all.len() implies report_consistent(#[trigger] all[q]) by {
        let n0 = parts[0].len() as int;
        let n1 = n0 + parts[1].len();
        let n2 = n1 + parts[2].len();
        let n3 = n2 + parts[3].len();
        let n4 = n3 + parts[4].len();
        if q < n0 {
            assert(all[q] == parts[0][q]);
        } else if q < n1 {
            assert(all[q] == parts[1][q - n0]);
        } else if q < n2 {
            assert(all[q] == parts[2][q - n1]);
        } else if q < n3 {
            assert(all[q] == parts[3][q - n2]);
        } else if q < n4 {
            assert(all[q] == parts[4][q - n3]);
        } else {
            assert(all[q] == parts[5][q - n4]);
        }
    }
    assert forall|i: int| 0 <= i < r.len() implies report_consistent(#[trigger] r[i]) by {
        assert(r.to_multiset().count(r[i]) > 0);
        assert(all.contains(r[i]));
        let q = choose|q: int| 0 <= q < all.len() && all[q] == r[i];
        assert(report_consistent(all[q]));
    }
}

/// `a` may stand before `b` in the report list: higher severity first, then
/// higher score, then scope in ascending order.
pub open spec fn debt_order(a: StructuralDebtReport, b: StructuralDebtReport) -> bool {
    ||| a.severity.spec_priority() > b.severity.spec_priority()
    ||| (a.severity.spec_priority() == b.severity.spec_priority() && a.score_0_10000 > b.score_0_10000)
    ||| (a.severity.spec_priority() == b.severity.spec_priority() && a.score_0_10000 == b.score_0_10000
        && !lex_lt(b.scope@, a.scope@))
}

/// The structural report list is ordered by `debt_order`, and every report
/// in it is consistent (see `report_consistent`).
pub proof fn lemma_structural_reports_ordered(
    r: Seq<StructuralDebtReport>,
    snapshot: Snapshot,
    health: HealthReport,
    guardrails: Seq<GuardrailFileEvidence>,
)
    requires
        structural_reports_of(r, snapshot, health, guardrails),
    ensures
        forall|i: int, j: int| 0 <= i < j < r.len() ==> debt_order(#[trigger] r[i], #[trigger] r[j]),
        forall|i: int| 0 <= i < r.len() ==> report_consistent(#[trigger] r[i]),
{
    lemma_structural_reports_consistent(r, snapshot, health, guardrails);
    assert forall|i: int, j: int| 0 <= i < j < r.len() implies debt_order(#[trigger] r[i], #[trigger] r[j]) by {
        assert(!r[j].ranks_before(r[i]));
    }
}

/// `r` holds the reports of every kind for the snapshot, its health report
/// and guardrail evidence, ranked by severity, score and scope.
pub open spec fn structural_reports_of(
    r: Seq<StructuralDebtReport>,
    snapshot: Snapshot,
    health: HealthReport,
    guardrails: Seq<GuardrailFileEvidence>,
) -> bool {
    &&& ranked_order(r)
    &&& exists|facts: Seq<FileFacts>, g: StructuralGraph, parts: Seq<Seq<StructuralDebtReport>>|
        #![trigger report_parts_of(parts, snapshot, health, facts, g)]
        {
            &&& facts_of_snapshot(facts, snapshot, guardrails)
            &&& forall|a: int, b: int| 0 <= a < b < facts.len() ==> lex_lt((#[trigger] facts[a]).path@, (#[trigger] facts[b]).path@)
            &&& graph_of(g, snapshot)
            &&& report_parts_of(parts, snapshot, health, facts, g)
            &&& r.to_multiset() == (parts[0] + parts[1] + parts[2] + parts[3] + parts[4] + parts[5]).to_multiset()
            &&& crate::sorting::keeps_ties_in_order(r, parts[0] + parts[1] + parts[2] + parts[3] + parts[4] + parts[5])
        }
}

/// Every report kind of the project, ordered by severity (highest first),
/// then score (highest first), then scope.
fn structural_reports(snapshot: &Snapshot, health: &HealthReport, guardrails: &Vec<GuardrailFileEvidence>) -> (r: Vec<StructuralDebtReport>)
    requires
        snapshot.import_graph@.len() + snapshot.call_graph@.len() < usize::MAX / 8,
        snapshot.files@.len() < usize::MAX / 8,
        snapshot.entry_points@.len() < usize::MAX / 8,
        cycles_bounded(*health),
    ensures
        structural_reports_of(r@, *snapshot, *health, guardrails@),
{
    let facts = build_file_facts(snapshot, guardrails);
    let g = build_structural_graph(snapshot);
    assert(g.edges@.len() < usize::MAX / 8) by {
        assert(crate::structural::graph::edge_view(g.edges@).len() == g.edges@.len());
        assert(crate::structural::graph::edge_view(g.import_edges@).len() == snapshot.import_graph@.len());
        assert(crate::structural::graph::edge_view(g.call_edges@).len() == snapshot.call_graph@.len());
    }
    let p0 = build_large_file_reports(health, &facts, &g);
    let p1 = build_dependency_sprawl_reports(health, &facts, &g);
    let p2 = build_unstable_hotspot_reports(health, &facts, &g);
    let p3 = build_cycle_cluster_reports(health, &facts, &g);
    let p4 = build_dead_private_code_cluster_reports(health, &facts);
    let p5 = crate::structural::islands::build_dead_island_reports(snapshot, health, &facts, &g);
    let ghost parts = seq![p0@, p1@, p2@, p3@, p4@, p5@];
    assert(report_parts_of(parts, *snapshot, *health, facts@, g));
    let mut reports: Vec<StructuralDebtReport> = Vec::new();
    move_all(&mut reports, p0);
    move_all(&mut reports, p1);
    move_all(&mut reports, p2);
    move_all(&mut reports, p3);
    move_all(&mut reports, p4);
    move_all(&mut reports, p5);
    assert(reports@ =~= parts[0] + parts[1] + parts[2] + parts[3] + parts[4] + parts[5]);
    let r = sort_ranked(reports);
    assert(r@.to_multiset() == (parts[0] + parts[1] + parts[2] + parts[3] + parts[4] + parts[5]).to_multiset());
    r
}

/// The structural debt reports of a project, without guardrail evidence.
pub fn build_structural_debt_reports(snapshot: &Snapshot, health: &HealthReport) -> (r: Vec<StructuralDebtReport>)
    requires
        snapshot.import_graph@.len() + snapshot.call_graph@.len() < usize::MAX / 8,
        snapshot.files@.len() < usize::MAX / 8,
        snapshot.entry_points@.len() < usize::MAX / 8,
        cycles_bounded(*health),
    ensures
        structural_reports_of(r@, *snapshot, *health, Seq::empty()),
        forall|i: int, j: int| 0 <= i < j < r@.len() ==> debt_order(#[trigger] r@[i], #[trigger] r@[j]),
        forall|i: int| 0 <= i < r@.len() ==> report_consistent(#[trigger] r@[i]),
{
    let none: Vec<GuardrailFileEvidence> = Vec::new();
    assert(none@ =~= Seq::<GuardrailFileEvidence>::empty());
    let r = structural_reports(snapshot, health, &none);
    proof {
        lemma_structural_reports_ordered(r@, *snapshot, *health, Seq::empty());
    }
    r
}

/// The paths of the analysed files (those with a known language), in
/// snapshot order.
pub open spec fn analysed_path_list(files: Seq<FileNode>) -> Seq<Text>
    decreases files.len(),
{
    if files.len() == 0 {
        Seq::empty()
    } else {
        let f = files.last();
        analysed_path_list(files.drop_last()) + if f.lang@.len() > 0 && f.lang@ != "unknown"@ {
            seq![f.path@]
        } else {
            Seq::empty()
        }
    }
}

fn analysed_paths(snapshot: &Snapshot) -> (r: Vec<String>)
    ensures
        r.deep_view() == analysed_path_list(snapshot.files@),
{
    let mut r: Vec<String> = Vec::new();
    let mut i: usize = 0;
    while i < snapshot.files.len()
        invariant
            i <= snapshot.files@.len(),
            r.deep_view() == analysed_path_list(snapshot.files@.take(i as int)),
        decreases snapshot.files@.len() - i,
    {
        let f = &snapshot.files[i];
        assert(snapshot.files@.take(i + 1).drop_last() =~= snapshot.files@.take(i as int));
        let lang = f.lang.as_str();
        if crate::text::char_len(lang) > 0 && !text_eq(lang, "unknown") {
            push_line(&mut r, f.path.clone());
        } else {
            assert(r.deep_view() =~= r.deep_view() + Seq::<Text>::empty());
        }
        i = i + 1;
    }
    assert(snapshot.files@.take(snapshot.files@.len() as int) =~= snapshot.files@);
    r
}

/// The structural debt reports of a project, with the evidence of the
/// architecture guardrail tests found under its root (see
/// `detect_architecture_guardrails`) taken over the analysed files.
pub fn build_structural_debt_reports_with_root(
    guardrail_sources: Vec<GuardrailSource>,
    snapshot: &Snapshot,
    health: &HealthReport,
) -> (r: Vec<StructuralDebtReport>)
    requires
        snapshot.import_graph@.len() + snapshot.call_graph@.len() < usize::MAX / 8,
        snapshot.files@.len() < usize::MAX / 8,
        snapshot.entry_points@.len() < usize::MAX / 8,
        cycles_bounded(*health),
    ensures
        exists|guardrails: Seq<GuardrailFileEvidence>|
            #![trigger structural_reports_of(r@, *snapshot, *health, guardrails)]
            guardrails_detected(guardrails, guardrail_sources@, analysed_path_list(snapshot.files@))
                && structural_reports_of(r@, *snapshot, *health, guardrails),
        forall|i: int, j: int| 0 <= i < j < r@.len() ==> debt_order(#[trigger] r@[i], #[trigger] r@[j]),
        forall|i: int| 0 <= i < r@.len() ==> report_consistent(#[trigger] r@[i]),
{
    let paths = analysed_paths(snapshot);
    let guardrails = detect_architecture_guardrails(guardrail_sources, &paths);
    let r = structural_reports(snapshot, health, &guardrails);
    proof {
        lemma_structural_reports_ordered(r@, *snapshot, *health, guardrails@);
    }
    r
}

} // verus!
