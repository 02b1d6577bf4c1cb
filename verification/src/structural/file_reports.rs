//! Per-file structural reports: oversized files, dependency sprawl and
//! unstable hotspots.
use crate::grouping::sorted_set;
use crate::sorting::ranked_order;
use crate::structural::common::{
    category_axes_of, category_summary, confidence_label, counts_categories, dependency_category_axes,
    dependency_category_summaries, dominant_names, first_cut_confidence, first_cut_extraction, first_cut_reasons,
    hotspot_axes_of, hotspot_split_axes, large_axes_of, large_file_first_cut, large_file_split_axes, CategoryCount,
};
use crate::structural::facts::{contextual_role_tags, contextual_roles_of};
use crate::structural::graph::{edge_view, fact_index, find_facts, sources, sources_of, targets, targets_of, StructuralGraph};
use crate::structural::roles::{annotate_structural_leverage, leverage_of, leverage_reasons_of, presentation_of, structural_presentation_class, sw};
use crate::structural::scoring::{
    dependency_sprawl_score, dependency_sprawl_score_of, instability_0_10000, instability_of, large_file_score,
    large_file_score_of, severity_of_score, signal_severity, unstable_hotspot_score, unstable_hotspot_score_of,
};
use crate::structural::utils::{
    dedupe, dedupe_strings_preserve_order, first_values, has_role_tag, has_tag, join_or_none, join_or_none_text,
};
use crate::structural::{
    language_thresholds, no_metrics, thresholds_of, FileFacts, FileMetric, StructuralDebtMetrics, StructuralDebtReport,
    StructuralSignalClass, StructuralTrustTier,
};
use crate::text::{dec, decimal, join, join_texts, push_line, Text};
use vstd::prelude::*;

verus! {

/// `k / 10000` with two decimals, rounded half up.
pub open spec fn two_decimals(k: nat) -> Text {
    let q = (k + 50) / 100;
    let frac = q % 100;
    dec(q / 100) + "."@ + (if frac < 10 { "0"@ } else { Seq::empty() }) + dec(frac)
}

/// `k / 10000` with two decimals (see `two_decimals`).
pub fn two_decimal_text(k: u32) -> (r: String)
    ensures
        r@ == two_decimals(k as nat),
{
    let q = (k as u64 + 50) / 100;
    let frac = q % 100;
    let mut r = decimal(q / 100);
    r.append(".");
    if frac < 10 {
        r.append("0");
    }
    let f = decimal(frac);
    r.append(f.as_str());
    proof {
        reveal_strlit("0");
    }
    assert(r@ =~= two_decimals(k as nat));
    r
}

fn labeled(label: &str, n: u64) -> (r: String)
    ensures
        r@ == label@ + dec(n as nat),
{
    let mut r = label.to_string();
    let d = decimal(n);
    r.append(d.as_str());
    r
}

fn labeled_text(label: &str, t: &str) -> (r: String)
    ensures
        r@ == label@ + t@,
{
    let mut r = label.to_string();
    r.append(t);
    r
}

/// `prefix'path'verb N unit, above the lang threshold of T`.
pub open spec fn threshold_sentence(prefix: Text, path: Text, verb: Text, n: nat, unit: Text, lang: Text, threshold: nat) -> Text {
    prefix + "'"@ + path + "'"@ + verb + dec(n) + unit + ", above the "@ + lang + " threshold of "@ + dec(threshold)
}

fn threshold_sentence_text(prefix: &str, path: &str, verb: &str, n: u64, unit: &str, lang: &str, threshold: u64) -> (r:
    String)
    ensures
        r@ == threshold_sentence(prefix@, path@, verb@, n as nat, unit@, lang@, threshold as nat),
{
    let mut r = prefix.to_string();
    r.append("'");
    r.append(path);
    r.append("'");
    r.append(verb);
    let d = decimal(n);
    r.append(d.as_str());
    r.append(unit);
    r.append(", above the ");
    r.append(lang);
    r.append(" threshold of ");
    let t = decimal(threshold);
    r.append(t.as_str());
    r
}

/// `prefix'path'verb N unit`.
pub open spec fn count_sentence(prefix: Text, path: Text, verb: Text, n: nat, unit: Text) -> Text {
    prefix + "'"@ + path + "'"@ + verb + dec(n) + unit
}

fn count_sentence_text(prefix: &str, path: &str, verb: &str, n: u64, unit: &str) -> (r: String)
    ensures
        r@ == count_sentence(prefix@, path@, verb@, n as nat, unit@),
{
    let mut r = prefix.to_string();
    r.append("'");
    r.append(path);
    r.append("'");
    r.append(verb);
    let d = decimal(n);
    r.append(d.as_str());
    r.append(unit);
    r
}

/// A path under `src/` whose tags mark it as a composition root or entry surface.
pub open spec fn is_source_entry(path: Text, tags: Seq<Text>) -> bool {
    sw(path, "src/"@) && (has_tag(tags, "composition_root"@) || has_tag(tags, "entry_surface"@))
}

/// The summary of an oversized file.
pub open spec fn large_file_summary_text(path: Text, lines: nat, lang: Text, threshold: nat, tags: Seq<Text>) -> Text {
    let prefix = if has_tag(tags, "facade_with_extracted_owners"@) {
        "Guarded facade file "@
    } else if is_source_entry(path, tags) {
        "Composition root "@
    } else {
        "File "@
    };
    threshold_sentence(prefix, path, " is "@, lines, " lines"@, lang, threshold)
}

/// The impact of an oversized file.
pub open spec fn large_file_impact_text(path: Text, tags: Seq<Text>) -> Text {
    if has_tag(tags, "facade_with_extracted_owners"@) {
        "The facade is still broad after extraction, which makes it harder to see whether new owner seams are actually shrinking the coordination surface."@
    } else if is_source_entry(path, tags) {
        "A broad entry surface can leak shell, runtime, and presentation concerns into one composition root."@
    } else {
        "Responsibility concentration increases review friction and makes later splits harder to isolate."@
    }
}

/// The summary of a file with dependency sprawl.
pub open spec fn dependency_sprawl_summary_text(path: Text, fan_out: nat, lang: Text, threshold: nat, tags: Seq<Text>) -> Text {
    let prefix = if has_tag(tags, "transport_facade"@) {
        "Guarded transport facade "@
    } else if has_tag(tags, "component_barrel"@) {
        "Component-facing barrel "@
    } else if has_tag(tags, "guarded_boundary"@) {
        "Guarded boundary file "@
    } else if has_tag(tags, "composition_root"@) || has_tag(tags, "entry_surface"@) {
        "Composition root "@
    } else {
        "File "@
    };
    threshold_sentence(prefix, path, " depends on "@, fan_out, " real surfaces"@, lang, threshold)
}

/// The impact of a file with dependency sprawl.
pub open spec fn dependency_sprawl_impact_text(tags: Seq<Text>) -> Text {
    if has_tag(tags, "transport_facade"@) {
        "A broad transport facade makes it harder to keep lifecycle and domain policy out of glue code."@
    } else if has_tag(tags, "component_barrel"@) {
        "A broad component-facing barrel can stay intentional, but it still needs narrow boundaries so app and runtime layers do not grow back through it."@
    } else if has_tag(tags, "guarded_boundary"@) {
        "A broad boundary surface increases change surface and makes it harder to keep consumers on narrow, intended entry paths."@
    } else if has_tag(tags, "composition_root"@) || has_tag(tags, "entry_surface"@) {
        "Broad dependency fan-out in a composition root makes shell wiring and runtime ownership harder to keep separate."@
    } else {
        "Broad dependency fan-out expands change surface and makes orchestration drift harder to localize."@
    }
}

/// The summary of an unstable hotspot.
pub open spec fn hotspot_summary_text(path: Text, fan_in: nat, tags: Seq<Text>) -> Text {
    let (prefix, verb) = if has_tag(tags, "transport_facade"@) {
        ("Guarded transport facade "@, " has "@)
    } else if has_tag(tags, "component_barrel"@) {
        ("Component-facing barrel "@, " has "@)
    } else if has_tag(tags, "guarded_boundary"@) {
        ("Guarded boundary file "@, " has "@)
    } else if has_tag(tags, "facade_with_extracted_owners"@) {
        ("Guarded facade "@, " still has "@)
    } else {
        ("File "@, " has "@)
    };
    count_sentence(prefix, path, verb, fan_in, " inbound references and remains unstable"@)
}

/// The impact of an unstable hotspot.
pub open spec fn hotspot_impact_text(tags: Seq<Text>) -> Text {
    if has_tag(tags, "transport_facade"@) {
        "A transport facade with heavy fan-in needs clear ownership boundaries so lifecycle or domain logic does not leak into transport glue."@
    } else if has_tag(tags, "component_barrel"@) {
        "A volatile component-facing barrel makes it harder to keep presentation access broad while keeping deeper orchestration changes contained."@
    } else if has_tag(tags, "guarded_boundary"@) {
        "A volatile boundary surface increases blast radius even when callers stay inside the intended layer."@
    } else if has_tag(tags, "facade_with_extracted_owners"@) {
        "A volatile public facade can hide whether the real extracted owners are taking the intended load or whether coordination is flowing back uphill."@
    } else {
        "High fan-in plus instability increases blast radius and makes small edits harder to contain."@
    }
}

fn large_file_summary(path: &str, lines: usize, lang: &str, threshold: u32, tags: &Vec<String>) -> (r: String)
    ensures
        r@ == large_file_summary_text(path@, lines as nat, lang@, threshold as nat, tags.deep_view()),
{
    let prefix = if has_role_tag(tags, "facade_with_extracted_owners") {
        "Guarded facade file "
    } else if starts_with_src(path) && (has_role_tag(tags, "composition_root") || has_role_tag(tags, "entry_surface")) {
        "Composition root "
    } else {
        "File "
    };
    threshold_sentence_text(prefix, path, " is ", lines as u64, " lines", lang, threshold as u64)
}

fn starts_with_src(path: &str) -> (r: bool)
    ensures
        r == sw(path@, "src/"@),
{
    crate::text::starts_with(path, "src/")
}

fn large_file_impact(path: &str, tags: &Vec<String>) -> (r: String)
    ensures
        r@ == large_file_impact_text(path@, tags.deep_view()),
{
    if has_role_tag(tags, "facade_with_extracted_owners") {
        "The facade is still broad after extraction, which makes it harder to see whether new owner seams are actually shrinking the coordination surface.".to_string()
    } else if starts_with_src(path) && (has_role_tag(tags, "composition_root") || has_role_tag(tags, "entry_surface")) {
        "A broad entry surface can leak shell, runtime, and presentation concerns into one composition root.".to_string()
    } else {
        "Responsibility concentration increases review friction and makes later splits harder to isolate.".to_string()
    }
}

fn dependency_sprawl_summary(path: &str, fan_out: usize, lang: &str, threshold: usize, tags: &Vec<String>) -> (r: String)
    ensures
        r@ == dependency_sprawl_summary_text(path@, fan_out as nat, lang@, threshold as nat, tags.deep_view()),
{
    let prefix = if has_role_tag(tags, "transport_facade") {
        "Guarded transport facade "
    } else if has_role_tag(tags, "component_barrel") {
        "Component-facing barrel "
    } else if has_role_tag(tags, "guarded_boundary") {
        "Guarded boundary file "
    } else if has_role_tag(tags, "composition_root") || has_role_tag(tags, "entry_surface") {
        "Composition root "
    } else {
        "File "
    };
    threshold_sentence_text(prefix, path, " depends on ", fan_out as u64, " real surfaces", lang, threshold as u64)
}

fn dependency_sprawl_impact(tags: &Vec<String>) -> (r: String)
    ensures
        r@ == dependency_sprawl_impact_text(tags.deep_view()),
{
    if has_role_tag(tags, "transport_facade") {
        "A broad transport facade makes it harder to keep lifecycle and domain policy out of glue code.".to_string()
    } else if has_role_tag(tags, "component_barrel") {
        "A broad component-facing barrel can stay intentional, but it still needs narrow boundaries so app and runtime layers do not grow back through it.".to_string()
    } else if has_role_tag(tags, "guarded_boundary") {
        "A broad boundary surface increases change surface and makes it harder to keep consumers on narrow, intended entry paths.".to_string()
    } else if has_role_tag(tags, "composition_root") || has_role_tag(tags, "entry_surface") {
        "Broad dependency fan-out in a composition root makes shell wiring and runtime ownership harder to keep separate.".to_string()
    } else {
        "Broad dependency fan-out expands change surface and makes orchestration drift harder to localize.".to_string()
    }
}

fn hotspot_summary(path: &str, fan_in: usize, tags: &Vec<String>) -> (r: String)
    ensures
        r@ == hotspot_summary_text(path@, fan_in as nat, tags.deep_view()),
{
    let unit = " inbound references and remains unstable";
    if has_role_tag(tags, "transport_facade") {
        count_sentence_text("Guarded transport facade ", path, " has ", fan_in as u64, unit)
    } else if has_role_tag(tags, "component_barrel") {
        count_sentence_text("Component-facing barrel ", path, " has ", fan_in as u64, unit)
    } else if has_role_tag(tags, "guarded_boundary") {
        count_sentence_text("Guarded boundary file ", path, " has ", fan_in as u64, unit)
    } else if has_role_tag(tags, "facade_with_extracted_owners") {
        count_sentence_text("Guarded facade ", path, " still has ", fan_in as u64, unit)
    } else {
        count_sentence_text("File ", path, " has ", fan_in as u64, unit)
    }
}

fn hotspot_impact(tags: &Vec<String>) -> (r: String)
    ensures
        r@ == hotspot_impact_text(tags.deep_view()),
{
    if has_role_tag(tags, "transport_facade") {
        "A transport facade with heavy fan-in needs clear ownership boundaries so lifecycle or domain logic does not leak into transport glue.".to_string()
    } else if has_role_tag(tags, "component_barrel") {
        "A volatile component-facing barrel makes it harder to keep presentation access broad while keeping deeper orchestration changes contained.".to_string()
    } else if has_role_tag(tags, "guarded_boundary") {
        "A volatile boundary surface increases blast radius even when callers stay inside the intended layer.".to_string()
    } else if has_role_tag(tags, "facade_with_extracted_owners") {
        "A volatile public facade can hide whether the real extracted owners are taking the intended load or whether coordination is flowing back uphill.".to_string()
    } else {
        "High fan-in plus instability increases blast radius and makes small edits harder to contain.".to_string()
    }
}

fn lines2(a: &str, b: &str) -> (r: Vec<String>)
    ensures
        r.deep_view() == seq![a@, b@],
{
    let mut r: Vec<String> = Vec::new();
    push_line(&mut r, a.to_string());
    push_line(&mut r, b.to_string());
    assert(r.deep_view() =~= seq![a@, b@]);
    r
}

/// The evidence lines about a file's guardrails: its guardrail tests, its
/// extracted owner factories and its guarded boundary literals, each line
/// only where there is something to list.
pub open spec fn guardrail_evidence_lines(facts: FileFacts) -> Seq<Text> {
    (if facts.guardrail_tests@.len() > 0 {
        seq!["guardrail tests: "@ + join(facts.guardrail_tests.deep_view(), ", "@)]
    } else {
        Seq::empty()
    }) + (if facts.facade_owner_factories@.len() > 0 {
        seq!["extracted owner factories: "@ + join(facts.facade_owner_factories.deep_view(), ", "@)]
    } else {
        Seq::empty()
    }) + (if facts.boundary_guard_literals@.len() > 0 {
        seq!["guarded boundary literals: "@ + join(facts.boundary_guard_literals.deep_view(), ", "@)]
    } else {
        Seq::empty()
    })
}

/// Evidence lines about the guardrails of a file, appended to `evidence`.
pub fn with_guardrail_evidence(facts: &FileFacts, evidence: &mut Vec<String>)
    ensures
        final(evidence).deep_view() == old(evidence).deep_view() + guardrail_evidence_lines(*facts),
{
    let ghost start = evidence.deep_view();
    let ghost a: Seq<Text> = if facts.guardrail_tests@.len() > 0 {
        seq!["guardrail tests: "@ + join(facts.guardrail_tests.deep_view(), ", "@)]
    } else {
        Seq::empty()
    };
    let ghost b: Seq<Text> = if facts.facade_owner_factories@.len() > 0 {
        seq!["extracted owner factories: "@ + join(facts.facade_owner_factories.deep_view(), ", "@)]
    } else {
        Seq::empty()
    };
    if facts.guardrail_tests.len() > 0 {
        let joined = join_texts(&facts.guardrail_tests, ", ");
        push_line(evidence, labeled_text("guardrail tests: ", joined.as_str()));
    }
    assert(evidence.deep_view() =~= start + a);
    if facts.facade_owner_factories.len() > 0 {
        let joined = join_texts(&facts.facade_owner_factories, ", ");
        push_line(evidence, labeled_text("extracted owner factories: ", joined.as_str()));
    }
    assert(evidence.deep_view() =~= start + a + b);
    if facts.boundary_guard_literals.len() > 0 {
        let joined = join_texts(&facts.boundary_guard_literals, ", ");
        push_line(evidence, labeled_text("guarded boundary literals: ", joined.as_str()));
    }
    assert(evidence.deep_view() =~= start + guardrail_evidence_lines(*facts));
}

/// Related surfaces with the file's guardrail tests appended, without repeats.
pub fn related_structural_surfaces(facts: &FileFacts, related: &Vec<String>) -> (r: Vec<String>)
    ensures
        r.deep_view() == dedupe(related.deep_view() + facts.guardrail_tests.deep_view()),
{
    let mut all = crate::clone_groups::copy_strings(related);
    assert(all.deep_view() =~= related.deep_view());
    let mut i: usize = 0;
    while i < facts.guardrail_tests.len()
        invariant
            i <= facts.guardrail_tests@.len(),
            all.deep_view() == related.deep_view() + facts.guardrail_tests.deep_view().take(i as int),
        decreases facts.guardrail_tests@.len() - i,
    {
        push_line(&mut all, facts.guardrail_tests[i].clone());
        i = i + 1;
        assert(all.deep_view() =~= related.deep_view() + facts.guardrail_tests.deep_view().take(i as int));
    }
    assert(facts.guardrail_tests.deep_view().take(i as int) =~= facts.guardrail_tests.deep_view());
    dedupe_strings_preserve_order(&all)
}

/// The per-file measures shared by the per-file reports.
pub open spec fn file_report_metrics(
    facts: FileFacts,
    line_count: usize,
    fan_in: Option<usize>,
    fan_out: usize,
    instability: Option<u32>,
    role_count: usize,
) -> StructuralDebtMetrics {
    StructuralDebtMetrics {
        file_count: Some(1),
        line_count: Some(line_count),
        function_count: Some(facts.function_count),
        fan_in,
        fan_out: Some(fan_out),
        instability_0_10000: instability,
        max_complexity: Some(facts.max_complexity),
        guardrail_test_count: Some(facts.guardrail_tests@.len() as usize),
        role_count: Some(role_count),
        ..no_metrics()
    }
}

/// The fields every per-file report of `kind` for `path` carries.
pub open spec fn is_file_report(
    r: StructuralDebtReport,
    kind: Text,
    path: Text,
    tags: Seq<Text>,
    families: Seq<Text>,
    score: u32,
    summary: Text,
    impact: Text,
    metrics: StructuralDebtMetrics,
) -> bool {
    &&& r.kind@ == kind
    &&& r.trust_tier == StructuralTrustTier::Trusted
    &&& r.presentation_class == presentation_of(kind, path, StructuralTrustTier::Trusted, tags)
    &&& r.leverage_class == leverage_of(kind, StructuralTrustTier::Trusted, r.presentation_class, tags, metrics)
    &&& r.scope@ == path
    &&& r.signal_class == StructuralSignalClass::Debt
    &&& r.signal_families.deep_view() == families
    &&& r.score_0_10000 == score
    &&& r.severity == severity_of_score(score)
    &&& r.summary@ == summary
    &&& r.impact@ == impact
    &&& r.files.deep_view() == seq![path]
    &&& r.role_tags.deep_view() == tags
    &&& r.cut_candidates@.len() == 0
    &&& r.metrics == metrics
    &&& r.leverage_reasons.deep_view() == leverage_reasons_of(r.leverage_class, kind, tags, metrics)
}

/// The files a file depends on, in path order.
pub open spec fn outgoing_list(g: StructuralGraph, path: Text) -> Seq<Text> {
    sorted_set(targets_of(edge_view(g.edges@), path))
}

/// The files that depend on a file, in path order.
pub open spec fn incoming_list(g: StructuralGraph, path: Text) -> Seq<Text> {
    sorted_set(sources_of(edge_view(g.edges@), path))
}

/// The first `n` values (all of them when there are fewer).
pub open spec fn first_n(values: Seq<Text>, n: nat) -> Seq<Text> {
    values.take(if n < values.len() { n as int } else { values.len() as int })
}

/// `axes` are the dependency-category split axes of the paths (see
/// `dependency_category_axes`).
pub open spec fn category_axes_for(axes: Seq<Text>, paths: Seq<Text>, limit: usize) -> bool {
    exists|names: Seq<Text>|
        #![trigger dominant_names(names, paths, limit)]
        dominant_names(names, paths, limit) && axes == category_axes_of(names)
}

/// `cats` are the summaries of the `limit` largest categories of the paths
/// (see `dependency_category_summaries`).
pub open spec fn category_summaries_for(cats: Seq<Text>, paths: Seq<Text>, limit: usize) -> bool {
    exists|counts: Seq<CategoryCount>|
        #![trigger counts_categories(counts, paths)]
        {
            &&& ranked_order(counts)
            &&& counts_categories(counts, paths)
            &&& cats.len() == if counts.len() < limit { counts.len() } else { limit as nat }
            &&& forall|i: int| 0 <= i < cats.len() ==> cats[i] == category_summary(#[trigger] counts[i])
        }
}

/// `axes` are the split axes of a hotspot (see `hotspot_split_axes`, with a
/// limit of three).
pub open spec fn hotspot_axes_for(axes: Seq<Text>, facts: FileFacts, incoming: Seq<Text>, outgoing: Seq<Text>) -> bool {
    exists|inbound: Seq<Text>, outbound: Seq<Text>|
        #![trigger dominant_names(inbound, incoming, 2), dominant_names(outbound, outgoing, 2)]
        {
            &&& dominant_names(inbound, incoming, 2)
            &&& dominant_names(outbound, outgoing, 2)
            &&& axes == hotspot_axes_of(inbound, outbound, facts.role_tags.deep_view(), 3)
        }
}

/// `axes` are the split axes of an oversized file (see `large_file_split_axes`).
pub open spec fn large_axes_for(axes: Seq<Text>, facts: FileFacts, outgoing: Seq<Text>) -> bool {
    if outgoing.len() == 0 {
        axes == large_axes_of(Seq::empty(), facts)
    } else {
        exists|names: Seq<Text>|
            #![trigger dominant_names(names, outgoing, 3)]
            dominant_names(names, outgoing, 3) && axes == large_axes_of(category_axes_of(names), facts)
    }
}

/// The admissibility line of an oversized file's first cut.
pub open spec fn first_cut_admissibility(facts: FileFacts, tags: Seq<Text>, fan_out: nat) -> Text {
    confidence_label(first_cut_confidence(facts, tags, fan_out)) + " ("@ + join(first_cut_reasons(facts, tags, fan_out), "; "@)
        + ")"@
}

/// The evidence lines of an oversized file, before repeats are dropped.
pub open spec fn large_file_evidence_lines(
    value: nat,
    threshold: nat,
    facts: FileFacts,
    fan_out: nat,
    axes: Seq<Text>,
    related: Seq<Text>,
    extraction: Text,
    admissibility: Text,
) -> Seq<Text> {
    seq![
        "line count: "@ + dec(value),
        "large-file threshold: "@ + dec(threshold),
        "function count: "@ + dec(facts.function_count as nat),
        "peak function complexity: "@ + dec(facts.max_complexity as nat),
        "outbound dependencies: "@ + dec(fan_out),
    ] + (if axes.len() > 0 {
        seq!["suggested split axes: "@ + join_or_none_text(axes)]
    } else {
        Seq::empty()
    }) + (if related.len() > 0 {
        seq!["related surfaces to peel out first: "@ + join_or_none_text(related)]
    } else {
        Seq::empty()
    }) + (if axes.len() > 0 && related.len() > 0 {
        seq!["recommended first cut: move the behavior that couples to "@ + related[0] + " behind the "@ + axes[0]]
    } else {
        Seq::empty()
    }) + seq!["first-cut extraction: "@ + extraction, "first-cut admissibility: "@ + admissibility]
        + guardrail_evidence_lines(facts)
}

/// The inspection focus of an oversized file, before repeats are dropped.
pub open spec fn large_file_focus_lines(path: Text, tags: Seq<Text>, axes: Seq<Text>, related: Seq<Text>) -> Seq<Text> {
    (if axes.len() > 0 && related.len() > 0 {
        seq!["inspect whether the "@ + axes[0] + " can become the owner for behavior that currently couples to "@ + related[0]]
    } else if axes.len() > 0 {
        seq!["inspect which behavior belongs behind the "@ + axes[0]]
    } else if related.len() > 0 {
        seq!["inspect whether behavior coupled to "@ + related[0] + " belongs in a smaller owner module"@]
    } else {
        Seq::empty()
    }) + if has_tag(tags, "facade_with_extracted_owners"@) {
        seq![
            "inspect whether remaining coordination belongs in extracted owner modules instead of the public facade"@,
            "inspect whether guardrail-backed owner seams are staying thin or accumulating new logic"@,
        ]
    } else if sw(path, "src/"@) && (has_tag(tags, "composition_root"@) || has_tag(tags, "entry_surface"@)) {
        seq![
            "inspect whether shell composition and runtime wiring are staying separate"@,
            "inspect whether the entry surface is acting as a coordinator rather than an implementation sink"@,
        ]
    } else {
        seq![
            "inspect whether orchestration, adapters, and data shaping are accumulating in one file"@,
            "inspect whether the file can be split along responsibility boundaries instead of line-count slices"@,
        ]
    }
}

/// The evidence lines of a dependency-sprawl or hotspot report, before
/// repeats are dropped.
pub open spec fn coupling_evidence_lines(head: Seq<Text>, inst: Text, cats_label: Text, cats: Seq<Text>, samples_label: Text, samples: Seq<Text>, facts: FileFacts) -> Seq<Text> {
    head + seq![
        "instability: "@ + inst,
        cats_label + join_or_none_text(cats),
        samples_label + join_or_none_text(samples),
    ] + guardrail_evidence_lines(facts)
}

fn single(path: &String) -> (r: Vec<String>)
    ensures
        r.deep_view() == seq![path@],
{
    let mut r: Vec<String> = Vec::new();
    push_line(&mut r, path.clone());
    assert(r.deep_view() =~= seq![path@]);
    r
}

/// The oversized-file report of a file.
pub open spec fn is_large_file_report(
    r: StructuralDebtReport,
    path: Text,
    value: usize,
    facts: FileFacts,
    all: Seq<FileFacts>,
    g: StructuralGraph,
) -> bool {
    let tags = contextual_roles_of(path, facts.role_tags.deep_view(), all, edge_view(g.import_edges@));
    let t = thresholds_of(facts.lang@);
    let fan_out = targets_of(edge_view(g.edges@), path).len();
    let score = large_file_score_of(value as nat, t.large_file_lines as nat, facts.max_complexity as nat);
    let outgoing = outgoing_list(g, path);
    let related = dedupe(first_n(outgoing, 5));
    let axes = r.candidate_split_axes.deep_view();
    &&& large_axes_for(axes, facts, outgoing)
    &&& r.related_surfaces.deep_view() == related
    &&& r.evidence.deep_view() == dedupe(
        large_file_evidence_lines(
            value as nat,
            t.large_file_lines as nat,
            facts,
            fan_out,
            axes,
            related,
            first_cut_extraction(facts, tags, outgoing, axes),
            first_cut_admissibility(facts, tags, outgoing.len()),
        ),
    )
    &&& r.inspection_focus.deep_view() == dedupe(large_file_focus_lines(path, tags, axes, related))
    &&& is_file_report(
        r,
        "large_file"@,
        path,
        tags,
        seq!["size"@, "coordination"@],
        score,
        large_file_summary_text(path, value as nat, facts.lang@, t.large_file_lines as nat, tags),
        large_file_impact_text(path, tags),
        file_report_metrics(facts, value, None, fan_out as usize, None, tags.len() as usize),
    )
}

/// The oversized-file report of `metric`, whose facts are `facts`.
pub fn large_file_report(metric: &FileMetric, facts: &FileFacts, all: &Vec<FileFacts>, g: &StructuralGraph) -> (r:
    StructuralDebtReport)
    requires
        facts.path@ == metric.path@,
    ensures
        is_large_file_report(r, metric.path@, metric.value, *facts, all@, *g),
{
    let path = metric.path.as_str();
    let tags = contextual_role_tags(path, &facts.role_tags, all, &g.import_edges);
    let threshold = language_thresholds(facts.lang.as_str()).large_file_lines;
    let outgoing = targets(&g.edges, path);
    proof {
        crate::order::lemma_sorted_no_duplicates(outgoing.deep_view());
        outgoing.deep_view().unique_seq_to_set();
    }
    let fan_out = outgoing.len();
    let ghost tv = tags.deep_view();
    let ghost ov = outgoing.deep_view();
    proof {
        crate::grouping::lemma_sorted_set_of(ov);
    }
    assert(ov == outgoing_list(*g, path@));
    let axes = large_file_split_axes(facts, if outgoing.len() > 0 { Some(&outgoing) } else { None });
    let ghost av = axes.deep_view();
    assert(large_axes_for(av, *facts, ov)) by {
        if ov.len() == 0 {
        } else {
        }
    }
    let sample = first_values(&outgoing, 5);
    let related = dedupe_strings_preserve_order(&sample);
    let ghost rv = related.deep_view();
    assert(rv == dedupe(first_n(ov, 5)));
    let first_cut = large_file_first_cut(facts, &tags, &outgoing, &axes);
    let ghost ext = first_cut_extraction(*facts, tv, ov, av);
    let ghost adm = first_cut_admissibility(*facts, tv, ov.len());
    assert(first_cut.extraction@ == ext);
    assert(first_cut.admissibility@ == adm);
    let mut evidence: Vec<String> = Vec::new();
    push_line(&mut evidence, labeled("line count: ", metric.value as u64));
    push_line(&mut evidence, labeled("large-file threshold: ", threshold as u64));
    push_line(&mut evidence, labeled("function count: ", facts.function_count as u64));
    push_line(&mut evidence, labeled("peak function complexity: ", facts.max_complexity as u64));
    push_line(&mut evidence, labeled("outbound dependencies: ", fan_out as u64));
    let ghost e0 = seq![
        "line count: "@ + dec(metric.value as nat),
        "large-file threshold: "@ + dec(threshold as nat),
        "function count: "@ + dec(facts.function_count as nat),
        "peak function complexity: "@ + dec(facts.max_complexity as nat),
        "outbound dependencies: "@ + dec(fan_out as nat),
    ];
    assert(evidence.deep_view() =~= e0);
    let ghost e1: Seq<Text> = if av.len() > 0 {
        seq!["suggested split axes: "@ + join_or_none_text(av)]
    } else {
        Seq::empty()
    };
    if axes.len() > 0 {
        let j = join_or_none(&axes);
        push_line(&mut evidence, labeled_text("suggested split axes: ", j.as_str()));
    }
    assert(evidence.deep_view() =~= e0 + e1);
    let ghost e2: Seq<Text> = if rv.len() > 0 {
        seq!["related surfaces to peel out first: "@ + join_or_none_text(rv)]
    } else {
        Seq::empty()
    };
    if related.len() > 0 {
        let j = join_or_none(&related);
        push_line(&mut evidence, labeled_text("related surfaces to peel out first: ", j.as_str()));
    }
    assert(evidence.deep_view() =~= e0 + e1 + e2);
    let ghost e3: Seq<Text> = if av.len() > 0 && rv.len() > 0 {
        seq!["recommended first cut: move the behavior that couples to "@ + rv[0] + " behind the "@ + av[0]]
    } else {
        Seq::empty()
    };
    if axes.len() > 0 && related.len() > 0 {
        let mut s = "recommended first cut: move the behavior that couples to ".to_string();
        s.append(related[0].as_str());
        s.append(" behind the ");
        s.append(axes[0].as_str());
        push_line(&mut evidence, s);
    }
    assert(evidence.deep_view() =~= e0 + e1 + e2 + e3);
    push_line(&mut evidence, labeled_text("first-cut extraction: ", first_cut.extraction.as_str()));
    push_line(&mut evidence, labeled_text("first-cut admissibility: ", first_cut.admissibility.as_str()));
    with_guardrail_evidence(facts, &mut evidence);
    assert(evidence.deep_view() =~= large_file_evidence_lines(
        metric.value as nat,
        threshold as nat,
        *facts,
        fan_out as nat,
        av,
        rv,
        ext,
        adm,
    ));
    let evidence = dedupe_strings_preserve_order(&evidence);
    let mut focus: Vec<String> = Vec::new();
    if axes.len() > 0 && related.len() > 0 {
        let mut s = "inspect whether the ".to_string();
        s.append(axes[0].as_str());
        s.append(" can become the owner for behavior that currently couples to ");
        s.append(related[0].as_str());
        push_line(&mut focus, s);
    } else if axes.len() > 0 {
        let mut s = "inspect which behavior belongs behind the ".to_string();
        s.append(axes[0].as_str());
        push_line(&mut focus, s);
    } else if related.len() > 0 {
        let mut s = "inspect whether behavior coupled to ".to_string();
        s.append(related[0].as_str());
        s.append(" belongs in a smaller owner module");
        push_line(&mut focus, s);
    }
    let ghost f0 = focus.deep_view();
    if has_role_tag(&tags, "facade_with_extracted_owners") {
        push_line(&mut focus, "inspect whether remaining coordination belongs in extracted owner modules instead of the public facade".to_string());
        push_line(&mut focus, "inspect whether guardrail-backed owner seams are staying thin or accumulating new logic".to_string());
    } else if starts_with_src(path) && (has_role_tag(&tags, "composition_root") || has_role_tag(&tags, "entry_surface")) {
        push_line(&mut focus, "inspect whether shell composition and runtime wiring are staying separate".to_string());
        push_line(&mut focus, "inspect whether the entry surface is acting as a coordinator rather than an implementation sink".to_string());
    } else {
        push_line(&mut focus, "inspect whether orchestration, adapters, and data shaping are accumulating in one file".to_string());
        push_line(&mut focus, "inspect whether the file can be split along responsibility boundaries instead of line-count slices".to_string());
    }
    assert(focus.deep_view() =~= large_file_focus_lines(path@, tv, av, rv));
    let focus = dedupe_strings_preserve_order(&focus);
    let score = large_file_score(metric.value, threshold, facts.max_complexity);
    let presentation = structural_presentation_class("large_file", path, StructuralTrustTier::Trusted, &tags);
    let role_count = tags.len();
    assert(role_count == tv.len());
    let mut report = StructuralDebtReport {
        kind: "large_file".to_string(),
        trust_tier: StructuralTrustTier::Trusted,
        presentation_class: presentation,
        leverage_class: crate::structural::StructuralLeverageClass::SecondaryCleanup,
        scope: metric.path.clone(),
        signal_class: StructuralSignalClass::Debt,
        signal_families: lines2("size", "coordination"),
        severity: signal_severity(score),
        score_0_10000: score,
        summary: large_file_summary(path, metric.value, facts.lang.as_str(), threshold, &tags),
        impact: large_file_impact(path, &tags),
        files: single(&metric.path),
        role_tags: tags,
        leverage_reasons: Vec::new(),
        evidence,
        inspection_focus: focus,
        candidate_split_axes: axes,
        related_surfaces: related,
        cut_candidates: Vec::new(),
        metrics: StructuralDebtMetrics {
            file_count: Some(1),
            line_count: Some(metric.value),
            function_count: Some(facts.function_count),
            fan_in: None,
            fan_out: Some(fan_out),
            instability_0_10000: None,
            dead_symbol_count: None,
            dead_line_count: None,
            cycle_size: None,
            max_complexity: Some(facts.max_complexity),
            inbound_reference_count: None,
            public_surface_count: None,
            reachable_from_tests: None,
            cut_candidate_count: None,
            largest_cycle_after_best_cut: None,
            guardrail_test_count: Some(facts.guardrail_tests.len()),
            role_count: Some(role_count),
        },
    };
    annotate_structural_leverage(&mut report);
    report
}

/// The dependency-sprawl report of a file.
pub open spec fn is_dependency_sprawl_report(
    r: StructuralDebtReport,
    path: Text,
    facts: FileFacts,
    all: Seq<FileFacts>,
    g: StructuralGraph,
) -> bool {
    let tags = contextual_roles_of(path, facts.role_tags.deep_view(), all, edge_view(g.import_edges@));
    let t = thresholds_of(facts.lang@);
    let fan_in = sources_of(edge_view(g.edges@), path).len();
    let fan_out = targets_of(edge_view(g.edges@), path).len();
    let instability = instability_of(fan_in, fan_out);
    let score = dependency_sprawl_score_of(fan_out, t.fan_out as nat, instability);
    let outgoing = outgoing_list(g, path);
    let examples = first_n(outgoing, 3);
    &&& category_axes_for(r.candidate_split_axes.deep_view(), outgoing, 3)
    &&& r.related_surfaces.deep_view() == dedupe(examples + facts.guardrail_tests.deep_view())
    &&& r.inspection_focus.deep_view() == sprawl_focus_lines(tags)
    &&& exists|cats: Seq<Text>|
        #![trigger category_summaries_for(cats, outgoing, 3)]
        category_summaries_for(cats, outgoing, 3) && r.evidence.deep_view() == dedupe(
            coupling_evidence_lines(
                seq!["fan-out: "@ + dec(fan_out), "fan-out threshold: "@ + dec(t.fan_out as nat)],
                two_decimals(instability),
                "dominant dependency categories: "@,
                cats,
                "sample dependencies: "@,
                examples,
                facts,
            ),
        )
    &&& is_file_report(
        r,
        "dependency_sprawl"@,
        path,
        tags,
        seq!["coupling"@, "coordination"@],
        score,
        dependency_sprawl_summary_text(path, fan_out, facts.lang@, t.fan_out as nat, tags),
        dependency_sprawl_impact_text(tags),
        file_report_metrics(facts, facts.lines, Some(fan_in as usize), fan_out as usize, Some(instability as u32), tags.len() as usize),
    )
}

/// The unstable-hotspot report of a file.
pub open spec fn is_unstable_hotspot_report(
    r: StructuralDebtReport,
    path: Text,
    facts: FileFacts,
    all: Seq<FileFacts>,
    g: StructuralGraph,
) -> bool {
    let tags = contextual_roles_of(path, facts.role_tags.deep_view(), all, edge_view(g.import_edges@));
    let t = thresholds_of(facts.lang@);
    let fan_in = sources_of(edge_view(g.edges@), path).len();
    let fan_out = targets_of(edge_view(g.edges@), path).len();
    let instability = instability_of(fan_in, fan_out);
    let score = unstable_hotspot_score_of(fan_in, t.fan_in as nat, instability);
    let incoming = incoming_list(g, path);
    let outgoing = outgoing_list(g, path);
    let examples = first_n(incoming, 3);
    &&& hotspot_axes_for(r.candidate_split_axes.deep_view(), facts, incoming, outgoing)
    &&& r.related_surfaces.deep_view() == dedupe(examples + facts.guardrail_tests.deep_view())
    &&& r.inspection_focus.deep_view() == hotspot_focus_lines(tags)
    &&& exists|cats: Seq<Text>|
        #![trigger category_summaries_for(cats, incoming, 3)]
        category_summaries_for(cats, incoming, 3) && r.evidence.deep_view() == dedupe(
            coupling_evidence_lines(
                seq!["fan-in: "@ + dec(fan_in), "hotspot threshold: "@ + dec(t.fan_in as nat), "fan-out: "@ + dec(fan_out)],
                two_decimals(instability),
                "dominant dependent categories: "@,
                cats,
                "sample dependents: "@,
                examples,
                facts,
            ),
        )
    &&& is_file_report(
        r,
        "unstable_hotspot"@,
        path,
        tags,
        seq!["coupling"@, "blast_radius"@],
        score,
        hotspot_summary_text(path, fan_in, tags),
        hotspot_impact_text(tags),
        file_report_metrics(facts, facts.lines, Some(fan_in as usize), fan_out as usize, Some(instability as u32), tags.len() as usize),
    )
}

fn sample_line(label: &str, samples: &Vec<String>) -> (r: String)
    ensures
        r@ == label@ + join_or_none_text(samples.deep_view()),
{
    if samples.len() == 0 {
        let mut s = label.to_string();
        s.append("none");
        s
    } else {
        let j = join_texts(samples, ", ");
        labeled_text(label, j.as_str())
    }
}

/// What to inspect in a file with dependency sprawl, by its role tags.
pub open spec fn sprawl_focus_lines(tags: Seq<Text>) -> Seq<Text> {
    if has_tag(tags, "transport_facade"@) {
        seq![
            "inspect whether transport glue is accumulating lifecycle or domain policy"@,
            "inspect whether callers can depend on narrower transport contracts instead of the broad facade"@,
        ]
    } else if has_tag(tags, "component_barrel"@) {
        seq![
            "inspect whether component-facing access is staying narrow while app and runtime imports remain outside the barrel"@,
            "inspect whether mixed responsibilities belong in dedicated owner modules instead of the shared barrel"@,
        ]
    } else if has_tag(tags, "guarded_boundary"@) {
        seq![
            "inspect whether callers are forced through a broad boundary instead of narrower owner modules"@,
            "inspect whether policy-compliant imports are still pushing too much responsibility through one surface"@,
        ]
    } else if has_tag(tags, "composition_root"@) || has_tag(tags, "entry_surface"@) {
        seq![
            "inspect whether view composition can stay separate from runtime or session wiring"@,
            "inspect whether shell responsibilities are spreading across too many direct imports"@,
        ]
    } else {
        seq![
            "inspect whether orchestration and policy code can move behind narrower helpers"@,
            "inspect whether unrelated adapter dependencies are accumulating in one module"@,
        ]
    }
}

fn sprawl_focus(tags: &Vec<String>) -> (r: Vec<String>)
    ensures
        r.deep_view() == sprawl_focus_lines(tags.deep_view()),
{
    if has_role_tag(tags, "transport_facade") {
        lines2(
            "inspect whether transport glue is accumulating lifecycle or domain policy",
            "inspect whether callers can depend on narrower transport contracts instead of the broad facade",
        )
    } else if has_role_tag(tags, "component_barrel") {
        lines2(
            "inspect whether component-facing access is staying narrow while app and runtime imports remain outside the barrel",
            "inspect whether mixed responsibilities belong in dedicated owner modules instead of the shared barrel",
        )
    } else if has_role_tag(tags, "guarded_boundary") {
        lines2(
            "inspect whether callers are forced through a broad boundary instead of narrower owner modules",
            "inspect whether policy-compliant imports are still pushing too much responsibility through one surface",
        )
    } else if has_role_tag(tags, "composition_root") || has_role_tag(tags, "entry_surface") {
        lines2(
            "inspect whether view composition can stay separate from runtime or session wiring",
            "inspect whether shell responsibilities are spreading across too many direct imports",
        )
    } else {
        lines2(
            "inspect whether orchestration and policy code can move behind narrower helpers",
            "inspect whether unrelated adapter dependencies are accumulating in one module",
        )
    }
}

/// What to inspect in an unstable hotspot, by its role tags.
pub open spec fn hotspot_focus_lines(tags: Seq<Text>) -> Seq<Text> {
    if has_tag(tags, "transport_facade"@) {
        seq![
            "inspect whether lifecycle or domain policy is accumulating inside transport glue"@,
            "inspect whether callers or owner modules can take decisions outside the facade"@,
        ]
    } else if has_tag(tags, "component_barrel"@) {
        seq![
            "inspect which component-facing reads really need the shared barrel and which can move behind narrower selectors"@,
            "inspect whether broad inbound traffic is hiding a smaller set of volatility-heavy owner modules"@,
        ]
    } else if has_tag(tags, "guarded_boundary"@) {
        seq![
            "inspect whether a narrower public boundary can serve the common consumers"@,
            "inspect whether intended callers are mixed with broader orchestration traffic"@,
        ]
    } else if has_tag(tags, "facade_with_extracted_owners"@) {
        seq![
            "inspect whether volatile logic belongs in extracted owners instead of the facade"@,
            "inspect whether too many callers still depend on coordination-heavy facade behavior"@,
        ]
    } else {
        seq![
            "inspect whether a stable contract can be split from the volatile implementation"@,
            "inspect whether too many callers depend directly on an orchestration-heavy file"@,
        ]
    }
}

fn hotspot_focus(tags: &Vec<String>) -> (r: Vec<String>)
    ensures
        r.deep_view() == hotspot_focus_lines(tags.deep_view()),
{
    if has_role_tag(tags, "transport_facade") {
        lines2(
            "inspect whether lifecycle or domain policy is accumulating inside transport glue",
            "inspect whether callers or owner modules can take decisions outside the facade",
        )
    } else if has_role_tag(tags, "component_barrel") {
        lines2(
            "inspect which component-facing reads really need the shared barrel and which can move behind narrower selectors",
            "inspect whether broad inbound traffic is hiding a smaller set of volatility-heavy owner modules",
        )
    } else if has_role_tag(tags, "guarded_boundary") {
        lines2(
            "inspect whether a narrower public boundary can serve the common consumers",
            "inspect whether intended callers are mixed with broader orchestration traffic",
        )
    } else if has_role_tag(tags, "facade_with_extracted_owners") {
        lines2(
            "inspect whether volatile logic belongs in extracted owners instead of the facade",
            "inspect whether too many callers still depend on coordination-heavy facade behavior",
        )
    } else {
        lines2(
            "inspect whether a stable contract can be split from the volatile implementation",
            "inspect whether too many callers depend directly on an orchestration-heavy file",
        )
    }
}

fn set_len(v: &Vec<String>) -> (n: usize)
    requires
        crate::order::strictly_sorted(v.deep_view()),
    ensures
        n == v.deep_view().to_set().len(),
{
    proof {
        crate::order::lemma_sorted_no_duplicates(v.deep_view());
        v.deep_view().unique_seq_to_set();
    }
    v.len()
}

/// The dependency-sprawl report of `path`, whose facts are `facts`.
pub fn dependency_sprawl_report(path: &String, facts: &FileFacts, all: &Vec<FileFacts>, g: &StructuralGraph) -> (r:
    StructuralDebtReport)
    requires
        g.edges@.len() < usize::MAX / 2,
    ensures
        is_dependency_sprawl_report(r, path@, *facts, all@, *g),
{
    let p = path.as_str();
    let tags = contextual_role_tags(p, &facts.role_tags, all, &g.import_edges);
    let incoming = sources(&g.edges, p);
    let outgoing = targets(&g.edges, p);
    let fan_in = set_len(&incoming);
    let fan_out = set_len(&outgoing);
    proof {
        crate::order::lemma_sorted_no_duplicates(incoming.deep_view());
        crate::order::lemma_sorted_no_duplicates(outgoing.deep_view());
        lemma_degree_bounded(&g.edges, p);
    }
    let threshold = language_thresholds(facts.lang.as_str()).fan_out;
    let instability = instability_0_10000(fan_in, fan_out);
    let score = dependency_sprawl_score(fan_out, threshold, instability);
    let ghost ov = outgoing.deep_view();
    proof {
        crate::grouping::lemma_sorted_set_of(ov);
    }
    assert(ov == outgoing_list(*g, p@));
    let examples = first_values(&outgoing, 3);
    let mut evidence: Vec<String> = Vec::new();
    push_line(&mut evidence, labeled("fan-out: ", fan_out as u64));
    push_line(&mut evidence, labeled("fan-out threshold: ", threshold as u64));
    let inst = two_decimal_text(instability);
    push_line(&mut evidence, labeled_text("instability: ", inst.as_str()));
    let cats = dependency_category_summaries(&outgoing, 3);
    let ghost cv = cats.deep_view();
    assert(category_summaries_for(cv, ov, 3)) by {
        let counts = choose|counts: Seq<CategoryCount>|
            #![trigger counts_categories(counts, ov)]
            {
                &&& ranked_order(counts)
                &&& counts_categories(counts, ov)
                &&& cats@.len() == if counts.len() < 3 { counts.len() } else { 3nat }
                &&& forall|i: int| 0 <= i < cats@.len() ==> cats@[i]@ == category_summary(#[trigger] counts[i])
            };
        assert(forall|i: int| 0 <= i < cv.len() ==> cv[i] == category_summary(#[trigger] counts[i]));
    }
    let joined = join_or_none(&cats);
    push_line(&mut evidence, labeled_text("dominant dependency categories: ", joined.as_str()));
    push_line(&mut evidence, sample_line("sample dependencies: ", &examples));
    with_guardrail_evidence(facts, &mut evidence);
    assert(evidence.deep_view() =~= coupling_evidence_lines(
        seq!["fan-out: "@ + dec(fan_out as nat), "fan-out threshold: "@ + dec(threshold as nat)],
        two_decimals(instability as nat),
        "dominant dependency categories: "@,
        cv,
        "sample dependencies: "@,
        examples.deep_view(),
        *facts,
    ));
    let evidence = dedupe_strings_preserve_order(&evidence);
    let axes = dependency_category_axes(if outgoing.len() > 0 { Some(&outgoing) } else { None }, 3);
    assert(category_axes_for(axes.deep_view(), ov, 3)) by {
        if ov.len() == 0 {
            let empty = Seq::<CategoryCount>::empty();
            assert(counts_categories(empty, ov));
            assert(dominant_names(Seq::<Text>::empty(), ov, 3));
            assert(axes.deep_view() == category_axes_of(Seq::<Text>::empty()));
        }
    }
    let presentation = structural_presentation_class("dependency_sprawl", p, StructuralTrustTier::Trusted, &tags);
    let role_count = tags.len();
    let mut report = StructuralDebtReport {
        kind: "dependency_sprawl".to_string(),
        trust_tier: StructuralTrustTier::Trusted,
        presentation_class: presentation,
        leverage_class: crate::structural::StructuralLeverageClass::SecondaryCleanup,
        scope: path.clone(),
        signal_class: StructuralSignalClass::Debt,
        signal_families: lines2("coupling", "coordination"),
        severity: signal_severity(score),
        score_0_10000: score,
        summary: dependency_sprawl_summary(p, fan_out, facts.lang.as_str(), threshold, &tags),
        impact: dependency_sprawl_impact(&tags),
        files: single(path),
        inspection_focus: sprawl_focus(&tags),
        candidate_split_axes: axes,
        related_surfaces: related_structural_surfaces(facts, &examples),
        role_tags: tags,
        leverage_reasons: Vec::new(),
        evidence,
        cut_candidates: Vec::new(),
        metrics: StructuralDebtMetrics {
            file_count: Some(1),
            line_count: Some(facts.lines),
            function_count: Some(facts.function_count),
            fan_in: Some(fan_in),
            fan_out: Some(fan_out),
            instability_0_10000: Some(instability),
            dead_symbol_count: None,
            dead_line_count: None,
            cycle_size: None,
            max_complexity: Some(facts.max_complexity),
            inbound_reference_count: None,
            public_surface_count: None,
            reachable_from_tests: None,
            cut_candidate_count: None,
            largest_cycle_after_best_cut: None,
            guardrail_test_count: Some(facts.guardrail_tests.len()),
            role_count: Some(role_count),
        },
    };
    annotate_structural_leverage(&mut report);
    report
}

/// The unstable-hotspot report of `path`, whose facts are `facts`.
pub fn unstable_hotspot_report(path: &String, facts: &FileFacts, all: &Vec<FileFacts>, g: &StructuralGraph) -> (r:
    StructuralDebtReport)
    requires
        g.edges@.len() < usize::MAX / 2,
    ensures
        is_unstable_hotspot_report(r, path@, *facts, all@, *g),
{
    let p = path.as_str();
    let tags = contextual_role_tags(p, &facts.role_tags, all, &g.import_edges);
    let incoming = sources(&g.edges, p);
    let outgoing = targets(&g.edges, p);
    let fan_in = set_len(&incoming);
    let fan_out = set_len(&outgoing);
    proof {
        lemma_degree_bounded(&g.edges, p);
    }
    let threshold = language_thresholds(facts.lang.as_str()).fan_in;
    let instability = instability_0_10000(fan_in, fan_out);
    let score = unstable_hotspot_score(fan_in, threshold, instability);
    let ghost iv = incoming.deep_view();
    let ghost ov = outgoing.deep_view();
    proof {
        crate::grouping::lemma_sorted_set_of(iv);
        crate::grouping::lemma_sorted_set_of(ov);
    }
    assert(iv == incoming_list(*g, p@));
    assert(ov == outgoing_list(*g, p@));
    let examples = first_values(&incoming, 3);
    let mut evidence: Vec<String> = Vec::new();
    push_line(&mut evidence, labeled("fan-in: ", fan_in as u64));
    push_line(&mut evidence, labeled("hotspot threshold: ", threshold as u64));
    push_line(&mut evidence, labeled("fan-out: ", fan_out as u64));
    let inst = two_decimal_text(instability);
    push_line(&mut evidence, labeled_text("instability: ", inst.as_str()));
    let cats = dependency_category_summaries(&incoming, 3);
    let ghost cv = cats.deep_view();
    assert(category_summaries_for(cv, iv, 3)) by {
        let counts = choose|counts: Seq<CategoryCount>|
            #![trigger counts_categories(counts, iv)]
            {
                &&& ranked_order(counts)
                &&& counts_categories(counts, iv)
                &&& cats@.len() == if counts.len() < 3 { counts.len() } else { 3nat }
                &&& forall|i: int| 0 <= i < cats@.len() ==> cats@[i]@ == category_summary(#[trigger] counts[i])
            };
        assert(forall|i: int| 0 <= i < cv.len() ==> cv[i] == category_summary(#[trigger] counts[i]));
    }
    let joined = join_or_none(&cats);
    push_line(&mut evidence, labeled_text("dominant dependent categories: ", joined.as_str()));
    push_line(&mut evidence, sample_line("sample dependents: ", &examples));
    with_guardrail_evidence(facts, &mut evidence);
    assert(evidence.deep_view() =~= coupling_evidence_lines(
        seq!["fan-in: "@ + dec(fan_in as nat), "hotspot threshold: "@ + dec(threshold as nat), "fan-out: "@ + dec(fan_out as nat)],
        two_decimals(instability as nat),
        "dominant dependent categories: "@,
        cv,
        "sample dependents: "@,
        examples.deep_view(),
        *facts,
    ));
    let evidence = dedupe_strings_preserve_order(&evidence);
    let axes = hotspot_split_axes(facts, &incoming, &outgoing, 3);
    assert(hotspot_axes_for(axes.deep_view(), *facts, iv, ov));
    let presentation = structural_presentation_class("unstable_hotspot", p, StructuralTrustTier::Trusted, &tags);
    let role_count = tags.len();
    let mut report = StructuralDebtReport {
        kind: "unstable_hotspot".to_string(),
        trust_tier: StructuralTrustTier::Trusted,
        presentation_class: presentation,
        leverage_class: crate::structural::StructuralLeverageClass::SecondaryCleanup,
        scope: path.clone(),
        signal_class: StructuralSignalClass::Debt,
        signal_families: lines2("coupling", "blast_radius"),
        severity: signal_severity(score),
        score_0_10000: score,
        summary: hotspot_summary(p, fan_in, &tags),
        impact: hotspot_impact(&tags),
        files: single(path),
        inspection_focus: hotspot_focus(&tags),
        candidate_split_axes: axes,
        related_surfaces: related_structural_surfaces(facts, &examples),
        role_tags: tags,
        leverage_reasons: Vec::new(),
        evidence,
        cut_candidates: Vec::new(),
        metrics: StructuralDebtMetrics {
            file_count: Some(1),
            line_count: Some(facts.lines),
            function_count: Some(facts.function_count),
            fan_in: Some(fan_in),
            fan_out: Some(fan_out),
            instability_0_10000: Some(instability),
            dead_symbol_count: None,
            dead_line_count: None,
            cycle_size: None,
            max_complexity: Some(facts.max_complexity),
            inbound_reference_count: None,
            public_surface_count: None,
            reachable_from_tests: None,
            cut_candidate_count: None,
            largest_cycle_after_best_cut: None,
            guardrail_test_count: Some(facts.guardrail_tests.len()),
            role_count: Some(role_count),
        },
    };
    annotate_structural_leverage(&mut report);
    report
}

/// A file has at most as many neighbours either way as there are edges.
proof fn lemma_degree_bounded(edges: &Vec<(String, String)>, p: &str)
    ensures
        sources_of(edge_view(edges@), p@).len() <= edges@.len(),
        targets_of(edge_view(edges@), p@).len() <= edges@.len(),
        sources_of(edge_view(edges@), p@).finite(),
        targets_of(edge_view(edges@), p@).finite(),
{
    let ev = edge_view(edges@);
    let ends = ev.map_values(|e: (Text, Text)| e.1);
    let starts = ev.map_values(|e: (Text, Text)| e.0);
    assert(targets_of(ev, p@).subset_of(ends.to_set())) by {
        assert forall|t: Text| targets_of(ev, p@).contains(t) implies ends.to_set().contains(t) by {
            let k = choose|k: int| 0 <= k < ev.len() && (#[trigger] ev[k]).0 == p@ && ev[k].1 == t;
            assert(ends[k] == t);
        }
    }
    assert(sources_of(ev, p@).subset_of(starts.to_set())) by {
        assert forall|s: Text| sources_of(ev, p@).contains(s) implies starts.to_set().contains(s) by {
            let k = choose|k: int| 0 <= k < ev.len() && (#[trigger] ev[k]).1 == p@ && ev[k].0 == s;
            assert(starts[k] == s);
        }
    }
    ends.lemma_cardinality_of_set();
    starts.lemma_cardinality_of_set();
    vstd::set_lib::lemma_len_subset(targets_of(ev, p@), ends.to_set());
    vstd::set_lib::lemma_len_subset(sources_of(ev, p@), starts.to_set());
}

} // verus!
