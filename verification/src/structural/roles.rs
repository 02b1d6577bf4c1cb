//! What a file's path says about its role, and how a report's roles and
//! measures classify its presentation and leverage.
use crate::structural::utils::{dedupe, dedupe_strings_preserve_order, has_role_tag, has_tag};
use crate::structural::{
    StructuralDebtMetrics, StructuralDebtReport, StructuralLeverageClass, StructuralPresentationClass,
    StructuralTrustTier,
};
use crate::text::{contains, contains_text, ends_with, push_line, starts_with, text_eq, Text};
use vstd::prelude::*;

verus! {

/// `x` opens `p`.
pub open spec fn sw(p: Text, x: Text) -> bool {
    x.is_prefix_of(p)
}

/// `x` closes `p`.
pub open spec fn ew(p: Text, x: Text) -> bool {
    x.is_suffix_of(p)
}

/// A framework page, layout, loading, error or not-found file under `src/app/`.
pub open spec fn is_route_surface(p: Text) -> bool {
    sw(p, "src/app/"@) && (ew(p, "/page.ts"@) || ew(p, "/page.tsx"@) || ew(p, "/layout.ts"@) || ew(p, "/layout.tsx"@)
        || ew(p, "/loading.ts"@) || ew(p, "/loading.tsx"@) || ew(p, "/error.ts"@) || ew(p, "/error.tsx"@) || ew(
        p,
        "/not-found.ts"@,
    ) || ew(p, "/not-found.tsx"@))
}

/// A framework API route under `src/app/api/`.
pub open spec fn is_api_route_surface(p: Text) -> bool {
    sw(p, "src/app/api/"@) && (ew(p, "/route.ts"@) || ew(p, "/route.tsx"@))
}

/// A service's HTTP routes or controllers.
pub open spec fn is_service_http_surface(p: Text) -> bool {
    sw(p, "src/routes/"@) || sw(p, "src/controllers/"@) || sw(p, "src/api/"@) || sw(p, "src/server/routes/"@)
        || sw(p, "src/server/controllers/"@)
}

/// A file that typically starts an application.
pub open spec fn is_entry_surface_path(p: Text) -> bool {
    ew(p, "/index.ts"@) || ew(p, "/index.tsx"@) || ew(p, "/main.ts"@) || ew(p, "/main.tsx"@) || is_route_surface(p)
        || is_service_http_surface(p) || p == "src/middleware.ts"@ || p == "src/middleware.tsx"@
}

/// A tooling script.
pub open spec fn is_tooling_path(p: Text) -> bool {
    sw(p, "scripts/"@)
}

/// A provider or context surface.
pub open spec fn is_provider_surface(p: Text) -> bool {
    p == "src/app/providers.tsx"@ || p == "src/app/providers.ts"@ || sw(p, "src/providers/"@) || contains_text(
        p,
        "/providers/"@,
    ) || sw(p, "src/contexts/"@) || contains_text(p, "/contexts/"@)
}

/// A service-layer file.
pub open spec fn is_service_layer(p: Text) -> bool {
    sw(p, "src/services/"@) || contains_text(p, "/services/"@)
}

/// A query-hook surface.
pub open spec fn is_query_hook_surface(p: Text) -> bool {
    sw(p, "src/hooks/queries/"@) || contains_text(p, "/hooks/queries/"@) || ew(p, "-queries.ts"@) || ew(
        p,
        "-queries.tsx"@,
    )
}

/// A repository or persistence file.
pub open spec fn is_repository_layer(p: Text) -> bool {
    sw(p, "src/repositories/"@) || contains_text(p, "/repositories/"@) || sw(p, "src/db/"@) || contains_text(
        p,
        "/db/"@,
    ) || sw(p, "src/persistence/"@) || contains_text(p, "/persistence/"@)
}

/// A middleware file.
pub open spec fn is_middleware_surface(p: Text) -> bool {
    p == "src/middleware.ts"@ || p == "src/middleware.tsx"@ || sw(p, "src/middleware/"@) || contains_text(
        p,
        "/middleware/"@,
    )
}

/// The number of `/` in `s`.
pub open spec fn slash_count(s: Text) -> nat
    decreases s.len(),
{
    if s.len() == 0 {
        0
    } else {
        slash_count(s.drop_last()) + if s.last() == '/' { 1nat } else { 0 }
    }
}

/// The index file of a feature module directly under `src/modules/`.
pub open spec fn is_feature_module_barrel(p: Text) -> bool {
    sw(p, "src/modules/"@) && (ew(p, "/index.ts"@) || ew(p, "/index.tsx"@)) && slash_count(p.skip(12)) == 1
}

/// A client state container.
pub open spec fn is_state_container(p: Text) -> bool {
    sw(p, "src/store/"@) || contains_text(p, "/store/"@) || ew(p, ".store.ts"@) || ew(p, ".store.tsx"@)
}

/// A transport facade such as an IPC bridge.
pub open spec fn is_transport_facade(p: Text) -> bool {
    contains_text(p, "/ipc."@) || contains_text(p, "-ipc."@) || ew(p, "/ipc.ts"@) || ew(p, "/ipc.tsx"@)
        || contains_text(p, "/browser-http-ipc."@)
}

/// The role tags a path implies, in a fixed order, without repeats.
pub open spec fn path_roles_of(p: Text) -> Seq<Text> {
    let t0: Seq<Text> = if is_route_surface(p) { seq!["route_surface"@] } else { Seq::empty() };
    let t1 = if is_api_route_surface(p) { t0 + seq!["api_route_surface"@, "entry_surface"@] } else { t0 };
    let t2 = if is_service_http_surface(p) { t1 + seq!["http_handler_surface"@, "entry_surface"@] } else { t1 };
    let t3 = if is_provider_surface(p) { t2.push("provider_surface"@) } else { t2 };
    let t4 = if is_service_layer(p) { t3.push("service_layer"@) } else { t3 };
    let t5 = if is_query_hook_surface(p) { t4.push("query_hook_surface"@) } else { t4 };
    let t6 = if is_repository_layer(p) { t5.push("repository_layer"@) } else { t5 };
    let t7 = if is_middleware_surface(p) { t6.push("middleware_surface"@) } else { t6 };
    let t8 = if is_feature_module_barrel(p) { t7.push("feature_module_barrel"@) } else { t7 };
    let t9 = if is_state_container(p) { t8.push("state_container"@) } else { t8 };
    dedupe(t9)
}

fn route_surface(p: &str) -> (r: bool)
    ensures
        r == is_route_surface(p@),
{
    starts_with(p, "src/app/") && (ends_with(p, "/page.ts") || ends_with(p, "/page.tsx") || ends_with(
        p,
        "/layout.ts",
    ) || ends_with(p, "/layout.tsx") || ends_with(p, "/loading.ts") || ends_with(p, "/loading.tsx")
        || ends_with(p, "/error.ts") || ends_with(p, "/error.tsx") || ends_with(p, "/not-found.ts")
        || ends_with(p, "/not-found.tsx"))
}

fn api_route_surface(p: &str) -> (r: bool)
    ensures
        r == is_api_route_surface(p@),
{
    starts_with(p, "src/app/api/") && (ends_with(p, "/route.ts") || ends_with(p, "/route.tsx"))
}

fn service_http_surface(p: &str) -> (r: bool)
    ensures
        r == is_service_http_surface(p@),
{
    starts_with(p, "src/routes/") || starts_with(p, "src/controllers/") || starts_with(p, "src/api/")
        || starts_with(p, "src/server/routes/") || starts_with(p, "src/server/controllers/")
}

/// Whether a path typically starts an application (see `is_entry_surface_path`).
pub fn entry_surface_path(p: &str) -> (r: bool)
    ensures
        r == is_entry_surface_path(p@),
{
    ends_with(p, "/index.ts") || ends_with(p, "/index.tsx") || ends_with(p, "/main.ts") || ends_with(p, "/main.tsx")
        || route_surface(p) || service_http_surface(p) || text_eq(p, "src/middleware.ts") || text_eq(
        p,
        "src/middleware.tsx",
    )
}

fn provider_surface(p: &str) -> (r: bool)
    ensures
        r == is_provider_surface(p@),
{
    text_eq(p, "src/app/providers.tsx") || text_eq(p, "src/app/providers.ts") || starts_with(p, "src/providers/")
        || contains(p, "/providers/") || starts_with(p, "src/contexts/") || contains(p, "/contexts/")
}

fn service_layer(p: &str) -> (r: bool)
    ensures
        r == is_service_layer(p@),
{
    starts_with(p, "src/services/") || contains(p, "/services/")
}

fn query_hook_surface(p: &str) -> (r: bool)
    ensures
        r == is_query_hook_surface(p@),
{
    starts_with(p, "src/hooks/queries/") || contains(p, "/hooks/queries/") || ends_with(p, "-queries.ts")
        || ends_with(p, "-queries.tsx")
}

fn repository_layer(p: &str) -> (r: bool)
    ensures
        r == is_repository_layer(p@),
{
    starts_with(p, "src/repositories/") || contains(p, "/repositories/") || starts_with(p, "src/db/") || contains(
        p,
        "/db/",
    ) || starts_with(p, "src/persistence/") || contains(p, "/persistence/")
}

fn middleware_surface(p: &str) -> (r: bool)
    ensures
        r == is_middleware_surface(p@),
{
    text_eq(p, "src/middleware.ts") || text_eq(p, "src/middleware.tsx") || starts_with(p, "src/middleware/")
        || contains(p, "/middleware/")
}

fn slashes_after(v: &Vec<char>, from: usize) -> (n: usize)
    requires
        from <= v@.len(),
    ensures
        n == slash_count(v@.skip(from as int)),
{
    let mut n: usize = 0;
    let mut i: usize = from;
    let ghost rest = v@.skip(from as int);
    assert(rest.take(0) =~= Seq::<char>::empty());
    while i < v.len()
        invariant
            from <= i <= v@.len(),
            rest == v@.skip(from as int),
            n == slash_count(rest.take(i - from)),
            n <= i - from,
        decreases v@.len() - i,
    {
        assert(rest.take(i - from + 1).drop_last() =~= rest.take(i - from));
        assert(rest.take(i - from + 1).last() == v@[i as int]);
        if v[i] == '/' {
            n = n + 1;
        }
        i = i + 1;
    }
    assert(rest.take(i - from) =~= rest);
    n
}

fn feature_module_barrel(p: &str) -> (r: bool)
    ensures
        r == is_feature_module_barrel(p@),
{
    if !(starts_with(p, "src/modules/") && (ends_with(p, "/index.ts") || ends_with(p, "/index.tsx"))) {
        return false;
    }
    proof {
        reveal_strlit("src/modules/");
    }
    let v = crate::text::chars_of(p);
    slashes_after(&v, 12) == 1
}

fn state_container(p: &str) -> (r: bool)
    ensures
        r == is_state_container(p@),
{
    starts_with(p, "src/store/") || contains(p, "/store/") || ends_with(p, ".store.ts") || ends_with(p, ".store.tsx")
}

/// Whether a path names a transport facade (see `is_transport_facade`).
pub fn transport_facade_path(p: &str) -> (r: bool)
    ensures
        r == is_transport_facade(p@),
{
    contains(p, "/ipc.") || contains(p, "-ipc.") || ends_with(p, "/ipc.ts") || ends_with(p, "/ipc.tsx") || contains(
        p,
        "/browser-http-ipc.",
    )
}

/// Whether a path is an API route (see `is_api_route_surface`).
pub fn api_route_path(p: &str) -> (r: bool)
    ensures
        r == is_api_route_surface(p@),
{
    api_route_surface(p)
}

/// Whether a path is a framework route surface (see `is_route_surface`).
pub fn route_path(p: &str) -> (r: bool)
    ensures
        r == is_route_surface(p@),
{
    route_surface(p)
}

/// The role tags a path implies (see `path_roles_of`).
pub fn path_role_tags(p: &str) -> (r: Vec<String>)
    ensures
        r.deep_view() == path_roles_of(p@),
{
    let mut tags: Vec<String> = Vec::new();
    let ghost mut expected: Seq<Text> = Seq::empty();
    if route_surface(p) {
        push_line(&mut tags, "route_surface".to_string());
        proof { expected = expected.push("route_surface"@); }
    }
    if api_route_surface(p) {
        push_line(&mut tags, "api_route_surface".to_string());
        push_line(&mut tags, "entry_surface".to_string());
        proof { expected = expected + seq!["api_route_surface"@, "entry_surface"@]; }
    }
    if service_http_surface(p) {
        push_line(&mut tags, "http_handler_surface".to_string());
        push_line(&mut tags, "entry_surface".to_string());
        proof { expected = expected + seq!["http_handler_surface"@, "entry_surface"@]; }
    }
    assert(tags.deep_view() =~= expected);
    if provider_surface(p) {
        push_line(&mut tags, "provider_surface".to_string());
        proof { expected = expected.push("provider_surface"@); }
    }
    if service_layer(p) {
        push_line(&mut tags, "service_layer".to_string());
        proof { expected = expected.push("service_layer"@); }
    }
    if query_hook_surface(p) {
        push_line(&mut tags, "query_hook_surface".to_string());
        proof { expected = expected.push("query_hook_surface"@); }
    }
    if repository_layer(p) {
        push_line(&mut tags, "repository_layer".to_string());
        proof { expected = expected.push("repository_layer"@); }
    }
    if middleware_surface(p) {
        push_line(&mut tags, "middleware_surface".to_string());
        proof { expected = expected.push("middleware_surface"@); }
    }
    if feature_module_barrel(p) {
        push_line(&mut tags, "feature_module_barrel".to_string());
        proof { expected = expected.push("feature_module_barrel"@); }
    }
    if state_container(p) {
        push_line(&mut tags, "state_container".to_string());
        proof { expected = expected.push("state_container"@); }
    }
    assert(tags.deep_view() =~= expected);
    dedupe_strings_preserve_order(&tags)
}

/// The presentation class of a report.
pub open spec fn presentation_of(kind: Text, path: Text, tier: StructuralTrustTier, tags: Seq<Text>) -> StructuralPresentationClass {
    if tier == StructuralTrustTier::Experimental {
        StructuralPresentationClass::Experimental
    } else if tier == StructuralTrustTier::Watchpoint || kind == "cycle_cluster"@ || kind == "dead_island"@ {
        StructuralPresentationClass::Watchpoint
    } else if is_tooling_path(path) {
        StructuralPresentationClass::ToolingDebt
    } else if has_tag(tags, "transport_facade"@) || has_tag(tags, "service_layer"@) {
        StructuralPresentationClass::GuardedFacade
    } else {
        StructuralPresentationClass::StructuralDebt
    }
}

/// The presentation class of a report (see `presentation_of`).
pub fn structural_presentation_class(kind: &str, path: &str, tier: StructuralTrustTier, tags: &Vec<String>) -> (r:
    StructuralPresentationClass)
    ensures
        r == presentation_of(kind@, path@, tier, tags.deep_view()),
{
    if tier == StructuralTrustTier::Experimental {
        return StructuralPresentationClass::Experimental;
    }
    if tier == StructuralTrustTier::Watchpoint || text_eq(kind, "cycle_cluster") || text_eq(kind, "dead_island") {
        return StructuralPresentationClass::Watchpoint;
    }
    if starts_with(path, "scripts/") {
        return StructuralPresentationClass::ToolingDebt;
    }
    if has_role_tag(tags, "transport_facade") || has_role_tag(tags, "service_layer") {
        return StructuralPresentationClass::GuardedFacade;
    }
    StructuralPresentationClass::StructuralDebt
}

/// An optional count, zero when absent.
pub open spec fn or_zero(x: Option<usize>) -> usize {
    match x {
        Some(v) => v,
        None => 0,
    }
}

/// A guarded facade that still needs only secondary cleanup.
pub open spec fn owner_facade_needs_cleanup(kind: Text, tags: Seq<Text>, m: StructuralDebtMetrics) -> bool {
    has_tag(tags, "entry_surface"@) || kind == "large_file"@ || or_zero(m.line_count) >= 500 || (match m.max_complexity {
        Some(c) => c,
        None => 0,
    }) >= 20 || or_zero(m.fan_in) >= 20
}

/// The leverage class of a report.
pub open spec fn leverage_of(
    kind: Text,
    tier: StructuralTrustTier,
    presentation: StructuralPresentationClass,
    tags: Seq<Text>,
    m: StructuralDebtMetrics,
) -> StructuralLeverageClass {
    if tier == StructuralTrustTier::Experimental {
        StructuralLeverageClass::Experimental
    } else if presentation == StructuralPresentationClass::ToolingDebt {
        StructuralLeverageClass::ToolingDebt
    } else if presentation == StructuralPresentationClass::HardeningNote {
        StructuralLeverageClass::HardeningNote
    } else if presentation == StructuralPresentationClass::GuardedFacade {
        StructuralLeverageClass::BoundaryDiscipline
    } else if kind == "cycle_cluster"@ {
        if has_tag(tags, "component_barrel"@) || has_tag(tags, "guarded_boundary"@) || (or_zero(m.cut_candidate_count) > 0
            && or_zero(m.cycle_size) > or_zero(m.largest_cycle_after_best_cut)) {
            StructuralLeverageClass::ArchitectureSignal
        } else {
            StructuralLeverageClass::SecondaryCleanup
        }
    } else if kind == "dead_island"@ {
        StructuralLeverageClass::SecondaryCleanup
    } else if has_tag(tags, "component_barrel"@) || has_tag(tags, "guarded_boundary"@) || has_tag(tags, "state_container"@)
        || has_tag(tags, "feature_module_barrel"@) {
        StructuralLeverageClass::ArchitectureSignal
    } else if has_tag(tags, "composition_root"@) || has_tag(tags, "entry_surface"@) || has_tag(tags, "route_surface"@)
        || has_tag(tags, "api_route_surface"@) || has_tag(tags, "provider_surface"@) {
        StructuralLeverageClass::RegrowthWatchpoint
    } else if has_tag(tags, "facade_with_extracted_owners"@) {
        if owner_facade_needs_cleanup(kind, tags, m) {
            StructuralLeverageClass::SecondaryCleanup
        } else {
            StructuralLeverageClass::LocalRefactorTarget
        }
    } else if kind == "dependency_sprawl"@ || kind == "unstable_hotspot"@ || kind == "hotspot"@ {
        StructuralLeverageClass::LocalRefactorTarget
    } else {
        StructuralLeverageClass::SecondaryCleanup
    }
}

fn opt_or_zero(x: Option<usize>) -> (r: usize)
    ensures
        r == or_zero(x),
{
    match x {
        Some(v) => v,
        None => 0,
    }
}

/// The leverage class of a report (see `leverage_of`).
pub fn structural_leverage_class(report: &StructuralDebtReport) -> (r: StructuralLeverageClass)
    ensures
        r == leverage_of(
            report.kind@,
            report.trust_tier,
            report.presentation_class,
            report.role_tags.deep_view(),
            report.metrics,
        ),
{
    let tags = &report.role_tags;
    let m = &report.metrics;
    let kind = report.kind.as_str();
    if report.trust_tier == StructuralTrustTier::Experimental {
        return StructuralLeverageClass::Experimental;
    }
    if report.presentation_class == StructuralPresentationClass::ToolingDebt {
        return StructuralLeverageClass::ToolingDebt;
    }
    if report.presentation_class == StructuralPresentationClass::HardeningNote {
        return StructuralLeverageClass::HardeningNote;
    }
    if report.presentation_class == StructuralPresentationClass::GuardedFacade {
        return StructuralLeverageClass::BoundaryDiscipline;
    }
    if text_eq(kind, "cycle_cluster") {
        if has_role_tag(tags, "component_barrel") || has_role_tag(tags, "guarded_boundary") || (opt_or_zero(
            m.cut_candidate_count,
        ) > 0 && opt_or_zero(m.cycle_size) > opt_or_zero(m.largest_cycle_after_best_cut)) {
            return StructuralLeverageClass::ArchitectureSignal;
        }
        return StructuralLeverageClass::SecondaryCleanup;
    }
    if text_eq(kind, "dead_island") {
        return StructuralLeverageClass::SecondaryCleanup;
    }
    if has_role_tag(tags, "component_barrel") || has_role_tag(tags, "guarded_boundary") || has_role_tag(
        tags,
        "state_container",
    ) || has_role_tag(tags, "feature_module_barrel") {
        return StructuralLeverageClass::ArchitectureSignal;
    }
    if has_role_tag(tags, "composition_root") || has_role_tag(tags, "entry_surface") || has_role_tag(
        tags,
        "route_surface",
    ) || has_role_tag(tags, "api_route_surface") || has_role_tag(tags, "provider_surface") {
        return StructuralLeverageClass::RegrowthWatchpoint;
    }
    if has_role_tag(tags, "facade_with_extracted_owners") {
        let complexity = match m.max_complexity {
            Some(c) => c,
            None => 0,
        };
        if has_role_tag(tags, "entry_surface") || text_eq(kind, "large_file") || opt_or_zero(m.line_count) >= 500
            || complexity >= 20 || opt_or_zero(m.fan_in) >= 20 {
            return StructuralLeverageClass::SecondaryCleanup;
        }
        return StructuralLeverageClass::LocalRefactorTarget;
    }
    if text_eq(kind, "dependency_sprawl") || text_eq(kind, "unstable_hotspot") || text_eq(kind, "hotspot") {
        return StructuralLeverageClass::LocalRefactorTarget;
    }
    StructuralLeverageClass::SecondaryCleanup
}

/// A refactor surface whose pressure is contained.
pub open spec fn contained_refactor_surface(
    tags: Seq<Text>,
    fan_in: Option<usize>,
    fan_out: Option<usize>,
    cycle_size: Option<usize>,
    guardrails: Option<usize>,
) -> bool {
    (has_tag(tags, "facade_with_extracted_owners"@) || or_zero(guardrails) > 0) && or_zero(fan_out) >= 3 && (or_zero(
        fan_in,
    ) == 0 || or_zero(fan_in) <= 12) && (or_zero(cycle_size) == 0 || or_zero(cycle_size) <= 6)
}

/// Reasons of a boundary-discipline report.
pub open spec fn boundary_reasons(m: StructuralDebtMetrics) -> Seq<Text> {
    let r0 = seq!["guarded_or_transport_facade"@];
    if or_zero(m.fan_in) > 0 { r0.push("heavy_inbound_seam_pressure"@) } else { r0 }
}

/// Reasons of an architecture-signal report.
pub open spec fn architecture_reasons(kind: Text, tags: Seq<Text>, m: StructuralDebtMetrics) -> Seq<Text> {
    let r0: Seq<Text> = if has_tag(tags, "component_barrel"@) { seq!["shared_barrel_boundary_hub"@] } else { Seq::empty() };
    let r1 = if has_tag(tags, "guarded_boundary"@) { r0.push("guardrail_backed_boundary_pressure"@) } else { r0 };
    let r2 = if has_tag(tags, "state_container"@) { r1.push("client_state_hub_pressure"@) } else { r1 };
    let r3 = if has_tag(tags, "feature_module_barrel"@) { r2.push("feature_module_public_api_pressure"@) } else { r2 };
    let r4 = if kind == "cycle_cluster"@ {
        let c = r3.push("mixed_cycle_pressure"@);
        if or_zero(m.cut_candidate_count) > 0 { c.push("high_leverage_cycle_cut"@) } else { c }
    } else {
        r3
    };
    if or_zero(m.fan_in) > 0 { r4.push("high_inbound_dependency_pressure"@) } else { r4 }
}

/// Reasons of a regrowth-watchpoint report.
pub open spec fn regrowth_reasons(tags: Seq<Text>) -> Seq<Text> {
    let r0 = seq!["intentionally_central_surface"@, "fan_out_regrowth_pressure"@];
    if has_tag(tags, "route_surface"@) || has_tag(tags, "api_route_surface"@) {
        r0.push("framework_entry_surface"@)
    } else {
        r0
    }
}

/// Reasons of a local-refactor report.
pub open spec fn local_refactor_reasons(tags: Seq<Text>, m: StructuralDebtMetrics) -> Seq<Text> {
    let r0: Seq<Text> = if has_tag(tags, "facade_with_extracted_owners"@) {
        seq!["extracted_owner_shell_pressure"@]
    } else {
        Seq::empty()
    };
    let r1 = if or_zero(m.guardrail_test_count) > 0 { r0.push("guardrail_backed_refactor_surface"@) } else { r0 };
    let inbound = match m.fan_in {
        Some(v) => Some(v),
        None => m.inbound_reference_count,
    };
    let r2 = if contained_refactor_surface(tags, inbound, m.fan_out, m.cycle_size, m.guardrail_test_count) {
        r1.push("contained_refactor_surface"@)
    } else {
        r1
    };
    if or_zero(m.fan_out) > 0 { r2.push("contained_dependency_pressure"@) } else { r2 }
}

/// Reasons of a secondary-cleanup report.
pub open spec fn secondary_reasons(kind: Text, tags: Seq<Text>) -> Seq<Text> {
    if kind == "dead_island"@ {
        seq!["disconnected_internal_component"@]
    } else if kind == "cycle_cluster"@ {
        seq!["smaller_cycle_watchpoint"@]
    } else if has_tag(tags, "query_hook_surface"@) {
        seq!["query_surface_cleanup"@]
    } else if has_tag(tags, "facade_with_extracted_owners"@) {
        seq!["secondary_facade_cleanup"@]
    } else if kind == "large_file"@ {
        seq!["supporting_size_pressure"@]
    } else {
        seq!["real_but_lower_leverage_cleanup"@]
    }
}

/// The reasons behind a report's leverage class, without repeats.
pub open spec fn leverage_reasons_of(
    class: StructuralLeverageClass,
    kind: Text,
    tags: Seq<Text>,
    m: StructuralDebtMetrics,
) -> Seq<Text> {
    dedupe(
        match class {
            StructuralLeverageClass::Experimental => seq!["detector_under_evaluation"@],
            StructuralLeverageClass::ToolingDebt => seq!["tooling_surface_maintenance_burden"@],
            StructuralLeverageClass::HardeningNote => seq!["narrow_completeness_gap"@],
            StructuralLeverageClass::BoundaryDiscipline => boundary_reasons(m),
            StructuralLeverageClass::ArchitectureSignal => architecture_reasons(kind, tags, m),
            StructuralLeverageClass::RegrowthWatchpoint => regrowth_reasons(tags),
            StructuralLeverageClass::LocalRefactorTarget => local_refactor_reasons(tags, m),
            StructuralLeverageClass::SecondaryCleanup => secondary_reasons(kind, tags),
        },
    )
}

fn push_reason(reasons: &mut Vec<String>, reason: &str)
    ensures
        final(reasons).deep_view() == old(reasons).deep_view().push(reason@),
{
    push_line(reasons, reason.to_string());
}

fn single_reason(reason: &str) -> (r: Vec<String>)
    ensures
        r.deep_view() == seq![reason@],
{
    let mut r: Vec<String> = Vec::new();
    push_reason(&mut r, reason);
    assert(r.deep_view() =~= seq![reason@]);
    r
}

fn architecture_reason_list(kind: &str, tags: &Vec<String>, m: &StructuralDebtMetrics) -> (r: Vec<String>)
    ensures
        r.deep_view() == architecture_reasons(kind@, tags.deep_view(), *m),
{
    let mut reasons: Vec<String> = Vec::new();
    let ghost mut e: Seq<Text> = Seq::empty();
    if has_role_tag(tags, "component_barrel") {
        push_reason(&mut reasons, "shared_barrel_boundary_hub");
        proof { e = e.push("shared_barrel_boundary_hub"@); }
    }
    if has_role_tag(tags, "guarded_boundary") {
        push_reason(&mut reasons, "guardrail_backed_boundary_pressure");
        proof { e = e.push("guardrail_backed_boundary_pressure"@); }
    }
    if has_role_tag(tags, "state_container") {
        push_reason(&mut reasons, "client_state_hub_pressure");
        proof { e = e.push("client_state_hub_pressure"@); }
    }
    if has_role_tag(tags, "feature_module_barrel") {
        push_reason(&mut reasons, "feature_module_public_api_pressure");
        proof { e = e.push("feature_module_public_api_pressure"@); }
    }
    if text_eq(kind, "cycle_cluster") {
        push_reason(&mut reasons, "mixed_cycle_pressure");
        proof { e = e.push("mixed_cycle_pressure"@); }
        if opt_or_zero(m.cut_candidate_count) > 0 {
            push_reason(&mut reasons, "high_leverage_cycle_cut");
            proof { e = e.push("high_leverage_cycle_cut"@); }
        }
    }
    if opt_or_zero(m.fan_in) > 0 {
        push_reason(&mut reasons, "high_inbound_dependency_pressure");
        proof { e = e.push("high_inbound_dependency_pressure"@); }
    }
    assert(e == architecture_reasons(kind@, tags.deep_view(), *m));
    reasons
}

fn local_refactor_reason_list(tags: &Vec<String>, m: &StructuralDebtMetrics) -> (r: Vec<String>)
    ensures
        r.deep_view() == local_refactor_reasons(tags.deep_view(), *m),
{
    let mut reasons: Vec<String> = Vec::new();
    let ghost mut e: Seq<Text> = Seq::empty();
    if has_role_tag(tags, "facade_with_extracted_owners") {
        push_reason(&mut reasons, "extracted_owner_shell_pressure");
        proof { e = e.push("extracted_owner_shell_pressure"@); }
    }
    if opt_or_zero(m.guardrail_test_count) > 0 {
        push_reason(&mut reasons, "guardrail_backed_refactor_surface");
        proof { e = e.push("guardrail_backed_refactor_surface"@); }
    }
    let inbound = match m.fan_in {
        Some(v) => Some(v),
        None => m.inbound_reference_count,
    };
    let owners = has_role_tag(tags, "facade_with_extracted_owners");
    let fan_in = opt_or_zero(inbound);
    let cycle = opt_or_zero(m.cycle_size);
    if (owners || opt_or_zero(m.guardrail_test_count) > 0) && opt_or_zero(m.fan_out) >= 3 && (fan_in == 0 || fan_in
        <= 12) && (cycle == 0 || cycle <= 6) {
        push_reason(&mut reasons, "contained_refactor_surface");
        proof { e = e.push("contained_refactor_surface"@); }
    }
    if opt_or_zero(m.fan_out) > 0 {
        push_reason(&mut reasons, "contained_dependency_pressure");
        proof { e = e.push("contained_dependency_pressure"@); }
    }
    assert(e == local_refactor_reasons(tags.deep_view(), *m));
    reasons
}

/// The reasons behind a report's leverage class (see `leverage_reasons_of`).
pub fn structural_leverage_reasons(report: &StructuralDebtReport, class: StructuralLeverageClass) -> (r: Vec<String>)
    ensures
        r.deep_view() == leverage_reasons_of(class, report.kind@, report.role_tags.deep_view(), report.metrics),
{
    let tags = &report.role_tags;
    let m = &report.metrics;
    let kind = report.kind.as_str();
    let reasons = match class {
        StructuralLeverageClass::Experimental => single_reason("detector_under_evaluation"),
        StructuralLeverageClass::ToolingDebt => single_reason("tooling_surface_maintenance_burden"),
        StructuralLeverageClass::HardeningNote => single_reason("narrow_completeness_gap"),
        StructuralLeverageClass::BoundaryDiscipline => {
            let mut r = single_reason("guarded_or_transport_facade");
            if opt_or_zero(m.fan_in) > 0 {
                push_reason(&mut r, "heavy_inbound_seam_pressure");
            }
            assert(r.deep_view() =~= boundary_reasons(*m));
            r
        },
        StructuralLeverageClass::ArchitectureSignal => architecture_reason_list(kind, tags, m),
        StructuralLeverageClass::RegrowthWatchpoint => {
            let mut r = single_reason("intentionally_central_surface");
            push_reason(&mut r, "fan_out_regrowth_pressure");
            if has_role_tag(tags, "route_surface") || has_role_tag(tags, "api_route_surface") {
                push_reason(&mut r, "framework_entry_surface");
            }
            assert(r.deep_view() =~= regrowth_reasons(tags.deep_view()));
            r
        },
        StructuralLeverageClass::LocalRefactorTarget => local_refactor_reason_list(tags, m),
        StructuralLeverageClass::SecondaryCleanup => {
            if text_eq(kind, "dead_island") {
                single_reason("disconnected_internal_component")
            } else if text_eq(kind, "cycle_cluster") {
                single_reason("smaller_cycle_watchpoint")
            } else if has_role_tag(tags, "query_hook_surface") {
                single_reason("query_surface_cleanup")
            } else if has_role_tag(tags, "facade_with_extracted_owners") {
                single_reason("secondary_facade_cleanup")
            } else if text_eq(kind, "large_file") {
                single_reason("supporting_size_pressure")
            } else {
                single_reason("real_but_lower_leverage_cleanup")
            }
        },
    };
    dedupe_strings_preserve_order(&reasons)
}

/// Sets a report's leverage class and reasons from its other fields.
pub fn annotate_structural_leverage(report: &mut StructuralDebtReport)
    ensures
        final(report).leverage_class == leverage_of(
            old(report).kind@,
            old(report).trust_tier,
            old(report).presentation_class,
            old(report).role_tags.deep_view(),
            old(report).metrics,
        ),
        final(report).leverage_reasons.deep_view() == leverage_reasons_of(
            final(report).leverage_class,
            old(report).kind@,
            old(report).role_tags.deep_view(),
            old(report).metrics,
        ),
        final(report).kind == old(report).kind,
        final(report).trust_tier == old(report).trust_tier,
        final(report).presentation_class == old(report).presentation_class,
        final(report).scope == old(report).scope,
        final(report).signal_class == old(report).signal_class,
        final(report).signal_families == old(report).signal_families,
        final(report).severity == old(report).severity,
        final(report).score_0_10000 == old(report).score_0_10000,
        final(report).summary == old(report).summary,
        final(report).impact == old(report).impact,
        final(report).files == old(report).files,
        final(report).role_tags == old(report).role_tags,
        final(report).evidence == old(report).evidence,
        final(report).inspection_focus == old(report).inspection_focus,
        final(report).candidate_split_axes == old(report).candidate_split_axes,
        final(report).related_surfaces == old(report).related_surfaces,
        final(report).cut_candidates == old(report).cut_candidates,
        final(report).metrics == old(report).metrics,
{
    let class = structural_leverage_class(report);
    let reasons = structural_leverage_reasons(report, class);
    report.leverage_class = class;
    report.leverage_reasons = reasons;
}

} // verus!
