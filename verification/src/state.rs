//! State integrity of configured state models: which closed domains live
//! under a model's roots, how completely their variants are handled, and
//! whether every transition names its next state.
use crate::authority::{any_path_pattern_matches, path_pattern_matches};
use crate::grouping::{sorted_set, sorted_set_of};
use crate::order::{lex_lt, text_less};
use crate::semantic::RulesConfig;
use crate::sorting::{ranked_order, sort_ranked, Ranked};
use crate::obligations::{copy_site, ObligationReport, ObligationSite, SiteView};
use crate::semantic::{
    ClosedDomain, ExhaustivenessProofKind, ExhaustivenessSite, ExhaustivenessSiteKind, SemanticCapability,
    SemanticSnapshot, StateModelRule, TransitionKind, TransitionSite,
};
use crate::site_set::{site_order, site_set_extend, site_views, sorted_set_by};
use crate::text::{dec, decimal, push_line, text_eq, Text};
use crate::{findings_view, FindingSeverity, FindingView, SemanticFinding};
use vstd::prelude::*;

verus! {

/// Which state models a run considers.
#[derive(Debug, Clone, Copy, PartialEq, Eq, Structural)]
pub enum StateScope {
    All,
    Changed,
}

/// How explicitly a state model's states and transitions are handled.
pub struct StateIntegrityReport {
    pub id: String,
    pub kind: String,
    pub roots: Vec<String>,
    pub domain_symbol_names: Vec<String>,
    pub files: Vec<String>,
    pub required_sites: Vec<ObligationSite>,
    pub satisfied_sites: Vec<ObligationSite>,
    pub missing_sites: Vec<ObligationSite>,
    pub missing_variants: Vec<String>,
    pub missing_exhaustive_switch_domains: Vec<String>,
    pub missing_assert_never_domains: Vec<String>,
    pub transition_sites_supported: bool,
    pub transition_sites: Vec<TransitionSite>,
    pub transition_gap_sites: Vec<TransitionSite>,
    pub missing_transition_variants: Vec<String>,
    pub explicitness_score_0_10000: u32,
    pub context_burden: usize,
}

impl Default for StateIntegrityReport {
    fn default() -> (r: Self)
        ensures
            r.id@.len() == 0,
            r.kind@.len() == 0,
            r.roots@.len() == 0,
            r.domain_symbol_names@.len() == 0,
            r.files@.len() == 0,
            r.required_sites@.len() == 0,
            r.satisfied_sites@.len() == 0,
            r.missing_sites@.len() == 0,
            r.missing_variants@.len() == 0,
            r.missing_exhaustive_switch_domains@.len() == 0,
            r.missing_assert_never_domains@.len() == 0,
            !r.transition_sites_supported,
            r.transition_sites@.len() == 0,
            r.transition_gap_sites@.len() == 0,
            r.missing_transition_variants@.len() == 0,
            r.explicitness_score_0_10000 == 0,
            r.context_burden == 0,
    {
        StateIntegrityReport {
            id: String::new(),
            kind: String::new(),
            roots: Vec::new(),
            domain_symbol_names: Vec::new(),
            files: Vec::new(),
            required_sites: Vec::new(),
            satisfied_sites: Vec::new(),
            missing_sites: Vec::new(),
            missing_variants: Vec::new(),
            missing_exhaustive_switch_domains: Vec::new(),
            missing_assert_never_domains: Vec::new(),
            transition_sites_supported: false,
            transition_sites: Vec::new(),
            transition_gap_sites: Vec::new(),
            missing_transition_variants: Vec::new(),
            explicitness_score_0_10000: 0,
            context_burden: 0,
        }
    }
}

/// A transition site as plain values.
pub type TransitionView = (Text, Text, Text, TransitionKind, Option<Text>, Seq<Text>, usize);

impl View for TransitionSite {
    type V = TransitionView;

    open spec fn view(&self) -> TransitionView {
        (
            self.path@,
            self.domain_symbol_name@,
            self.group_id@,
            self.transition_kind,
            match self.source_variant {
                Some(v) => Some(v@),
                None => None,
            },
            self.target_variants.deep_view(),
            self.line,
        )
    }
}

/// The transition sites as plain values.
pub open spec fn transition_views(v: Seq<TransitionSite>) -> Seq<TransitionView> {
    v.map_values(|t: TransitionSite| t@)
}

/// One of the root patterns selects `path`.
pub open spec fn roots_match(roots: Seq<Text>, path: Text) -> bool {
    exists|i: int| 0 <= i < roots.len() && path_pattern_matches(#[trigger] roots[i], path)
}

/// Whether one of the roots selects `path`.
pub fn roots_match_path(roots: &Vec<String>, path: &str) -> (r: bool)
    ensures
        r == roots_match(roots.deep_view(), path@),
{
    any_path_pattern_matches(roots, path)
}

/// The exhaustiveness sites under the roots, in order.
pub open spec fn sites_under(roots: Seq<Text>, sites: Seq<ExhaustivenessSite>) -> Seq<ExhaustivenessSite>
    decreases sites.len(),
{
    if sites.len() == 0 {
        Seq::empty()
    } else {
        let prev = sites_under(roots, sites.drop_last());
        if roots_match(roots, sites.last().path@) {
            prev.push(sites.last())
        } else {
            prev
        }
    }
}

/// The domains that the sites handle.
pub open spec fn site_domain_set(sites: Seq<ExhaustivenessSite>) -> Set<Text> {
    sites.map_values(|s: ExhaustivenessSite| s.domain_symbol_name@).to_set()
}

/// The closed domains that relevant sites handle or that live under the roots.
pub open spec fn domains_of(roots: Seq<Text>, domains: Seq<ClosedDomain>, names: Set<Text>) -> Seq<ClosedDomain>
    decreases domains.len(),
{
    if domains.len() == 0 {
        Seq::empty()
    } else {
        let prev = domains_of(roots, domains.drop_last(), names);
        let d = domains.last();
        if names.contains(d.symbol_name@) || roots_match(roots, d.path@) {
            prev.push(d)
        } else {
            prev
        }
    }
}

/// The exhaustiveness sites under a model's roots.
pub open spec fn model_sites(m: StateModelRule, semantic: SemanticSnapshot) -> Seq<ExhaustivenessSite> {
    sites_under(m.roots.deep_view(), semantic.closed_domain_sites@)
}

/// The closed domains of a model.
pub open spec fn model_domains(m: StateModelRule, semantic: SemanticSnapshot) -> Seq<ClosedDomain> {
    domains_of(m.roots.deep_view(), semantic.closed_domains@, site_domain_set(model_sites(m, semantic)))
}

/// The names of a model's domains, in increasing order.
pub open spec fn model_domain_names(m: StateModelRule, semantic: SemanticSnapshot) -> Seq<Text> {
    sorted_set(
        model_domains(m, semantic).map_values(|d: ClosedDomain| d.symbol_name@).to_set() + site_domain_set(
            model_sites(m, semantic),
        ),
    )
}

/// Positions of the exhaustiveness sites under the roots.
fn relevant_site_positions(roots: &Vec<String>, sites: &Vec<ExhaustivenessSite>) -> (r: Vec<usize>)
    ensures
        r@.len() == sites_under(roots.deep_view(), sites@).len(),
        forall|k: int|
            0 <= k < r@.len() ==> #[trigger] r@[k] < sites@.len() && sites@[r@[k] as int] == sites_under(
                roots.deep_view(),
                sites@,
            )[k],
{
    let ghost rv = roots.deep_view();
    let ghost sv = sites@;
    let mut r: Vec<usize> = Vec::new();
    let mut i: usize = 0;
    assert(sv.take(0) =~= Seq::<ExhaustivenessSite>::empty());
    while i < sites.len()
        invariant
            rv == roots.deep_view(),
            sv == sites@,
            i <= sv.len(),
            r@.len() == sites_under(rv, sv.take(i as int)).len(),
            forall|k: int|
                0 <= k < r@.len() ==> #[trigger] r@[k] < i && sv[r@[k] as int] == sites_under(rv, sv.take(i as int))[k],
        decreases sv.len() - i,
    {
        assert(sv.take(i + 1).drop_last() =~= sv.take(i as int));
        assert(sv.take(i + 1).last() == sv[i as int]);
        let ghost prev = sites_under(rv, sv.take(i as int));
        if roots_match_path(roots, sites[i].path.as_str()) {
            r.push(i);
            assert(sites_under(rv, sv.take(i + 1)) == prev.push(sv[i as int]));
        } else {
            assert(sites_under(rv, sv.take(i + 1)) == prev);
        }
        i = i + 1;
    }
    assert(sv.take(sv.len() as int) =~= sv);
    r
}

/// Positions of the model's closed domains.
fn relevant_domain_positions(roots: &Vec<String>, domains: &Vec<ClosedDomain>, names: &Vec<String>) -> (r: Vec<usize>)
    ensures
        r@.len() == domains_of(roots.deep_view(), domains@, names.deep_view().to_set()).len(),
        forall|k: int|
            0 <= k < r@.len() ==> #[trigger] r@[k] < domains@.len() && domains@[r@[k] as int] == domains_of(
                roots.deep_view(),
                domains@,
                names.deep_view().to_set(),
            )[k],
{
    let ghost rv = roots.deep_view();
    let ghost dv = domains@;
    let ghost ns = names.deep_view().to_set();
    let mut r: Vec<usize> = Vec::new();
    let mut i: usize = 0;
    assert(dv.take(0) =~= Seq::<ClosedDomain>::empty());
    while i < domains.len()
        invariant
            rv == roots.deep_view(),
            dv == domains@,
            ns == names.deep_view().to_set(),
            i <= dv.len(),
            r@.len() == domains_of(rv, dv.take(i as int), ns).len(),
            forall|k: int|
                0 <= k < r@.len() ==> #[trigger] r@[k] < i && dv[r@[k] as int] == domains_of(rv, dv.take(i as int), ns)[k],
        decreases dv.len() - i,
    {
        assert(dv.take(i + 1).drop_last() =~= dv.take(i as int));
        assert(dv.take(i + 1).last() == dv[i as int]);
        let ghost prev = domains_of(rv, dv.take(i as int), ns);
        let named = crate::order::texts_contain(names, domains[i].symbol_name.as_str());
        proof {
            if named {
                assert(ns.contains(domains[i as int].symbol_name@));
            }
            if ns.contains(domains[i as int].symbol_name@) {
                assert(names.deep_view().contains(domains[i as int].symbol_name@));
            }
        }
        if named || roots_match_path(roots, domains[i].path.as_str()) {
            r.push(i);
            assert(domains_of(rv, dv.take(i + 1), ns) == prev.push(dv[i as int]));
        } else {
            assert(domains_of(rv, dv.take(i + 1), ns) == prev);
        }
        i = i + 1;
    }
    assert(dv.take(dv.len() as int) =~= dv);
    r
}

/// The obligations about one of the named domains, in order.
pub open spec fn related_obligations(os: Seq<ObligationReport>, names: Set<Text>) -> Seq<ObligationReport>
    decreases os.len(),
{
    if os.len() == 0 {
        Seq::empty()
    } else {
        let prev = related_obligations(os.drop_last(), names);
        let o = os.last();
        if (match o.domain_symbol_name {
            Some(d) => names.contains(d@),
            None => false,
        }) {
            prev.push(o)
        } else {
            prev
        }
    }
}

/// The files of the obligations.
pub open spec fn obligation_file_set(os: Seq<ObligationReport>) -> Set<Text>
    decreases os.len(),
{
    if os.len() == 0 {
        Set::empty()
    } else {
        obligation_file_set(os.drop_last()) + os.last().files.deep_view().to_set()
    }
}

/// The required sites of the obligations.
pub open spec fn required_site_set(os: Seq<ObligationReport>) -> Set<SiteView>
    decreases os.len(),
{
    if os.len() == 0 {
        Set::empty()
    } else {
        required_site_set(os.drop_last()) + site_views(os.last().required_sites@).to_set()
    }
}

/// The satisfied sites of the obligations.
pub open spec fn satisfied_site_set(os: Seq<ObligationReport>) -> Set<SiteView>
    decreases os.len(),
{
    if os.len() == 0 {
        Set::empty()
    } else {
        satisfied_site_set(os.drop_last()) + site_views(os.last().satisfied_sites@).to_set()
    }
}

/// The missing sites of the obligations.
pub open spec fn missing_site_set(os: Seq<ObligationReport>) -> Set<SiteView>
    decreases os.len(),
{
    if os.len() == 0 {
        Set::empty()
    } else {
        missing_site_set(os.drop_last()) + site_views(os.last().missing_sites@).to_set()
    }
}

/// The missing variants of the obligations.
pub open spec fn missing_variant_set(os: Seq<ObligationReport>) -> Set<Text>
    decreases os.len(),
{
    if os.len() == 0 {
        Set::empty()
    } else {
        missing_variant_set(os.drop_last()) + os.last().missing_variants.deep_view().to_set()
    }
}

/// The summed context burden of the obligations.
pub open spec fn burden_total(os: Seq<ObligationReport>) -> nat
    decreases os.len(),
{
    if os.len() == 0 {
        0
    } else {
        burden_total(os.drop_last()) + os.last().context_burden as nat
    }
}

proof fn lemma_related_burden_bounded(os: Seq<ObligationReport>, names: Set<Text>)
    ensures
        burden_total(related_obligations(os, names)) <= burden_total(os),
    decreases os.len(),
{
    if os.len() > 0 {
        lemma_related_burden_bounded(os.drop_last(), names);
        let prev = related_obligations(os.drop_last(), names);
        let cur = related_obligations(os, names);
        if cur != prev {
            assert(cur == prev.push(os.last()));
            assert(cur.drop_last() =~= prev);
        }
    }
}

/// What the related obligations add up to: files, required, satisfied and
/// missing sites, missing variants (sites kept as ordered sets), burden.
struct ObligationCoverage {
    files: Vec<String>,
    required_sites: Vec<ObligationSite>,
    satisfied_sites: Vec<ObligationSite>,
    missing_sites: Vec<ObligationSite>,
    missing_variants: Vec<String>,
    context_burden: usize,
}

/// The coverage of the obligations about the named domains.
fn summarize_obligation_coverage(obligations: &Vec<ObligationReport>, names: &Vec<String>) -> (r: ObligationCoverage)
    requires
        burden_total(obligations@) <= usize::MAX,
    ensures
        ({
            let rel = related_obligations(obligations@, names.deep_view().to_set());
            &&& r.files.deep_view().to_set() == obligation_file_set(rel)
            &&& crate::site_set::sorted_by(site_views(r.required_sites@), site_order())
            &&& site_views(r.required_sites@).to_set() == required_site_set(rel)
            &&& crate::site_set::sorted_by(site_views(r.satisfied_sites@), site_order())
            &&& site_views(r.satisfied_sites@).to_set() == satisfied_site_set(rel)
            &&& crate::site_set::sorted_by(site_views(r.missing_sites@), site_order())
            &&& site_views(r.missing_sites@).to_set() == missing_site_set(rel)
            &&& r.missing_variants.deep_view().to_set() == missing_variant_set(rel)
            &&& r.context_burden == burden_total(rel)
        }),
{
    let ghost ns = names.deep_view().to_set();
    let ghost ov = obligations@;
    let mut files: Vec<String> = Vec::new();
    let mut required: Vec<ObligationSite> = Vec::new();
    let mut satisfied: Vec<ObligationSite> = Vec::new();
    let mut missing: Vec<ObligationSite> = Vec::new();
    let mut variants: Vec<String> = Vec::new();
    let mut burden: usize = 0;
    assert(ov.take(0) =~= Seq::<ObligationReport>::empty());
    assert(files.deep_view().to_set() =~= Set::<Text>::empty());
    assert(variants.deep_view().to_set() =~= Set::<Text>::empty());
    assert(site_views(required@).to_set() =~= Set::<SiteView>::empty());
    assert(site_views(satisfied@).to_set() =~= Set::<SiteView>::empty());
    assert(site_views(missing@).to_set() =~= Set::<SiteView>::empty());
    proof {
        lemma_related_burden_bounded(ov, ns);
    }
    let mut i: usize = 0;
    while i < obligations.len()
        invariant
            ns == names.deep_view().to_set(),
            ov == obligations@,
            burden_total(ov) <= usize::MAX,
            i <= ov.len(),
            files.deep_view().to_set() == obligation_file_set(related_obligations(ov.take(i as int), ns)),
            crate::site_set::sorted_by(site_views(required@), site_order()),
            site_views(required@).to_set() == required_site_set(related_obligations(ov.take(i as int), ns)),
            crate::site_set::sorted_by(site_views(satisfied@), site_order()),
            site_views(satisfied@).to_set() == satisfied_site_set(related_obligations(ov.take(i as int), ns)),
            crate::site_set::sorted_by(site_views(missing@), site_order()),
            site_views(missing@).to_set() == missing_site_set(related_obligations(ov.take(i as int), ns)),
            variants.deep_view().to_set() == missing_variant_set(related_obligations(ov.take(i as int), ns)),
            burden == burden_total(related_obligations(ov.take(i as int), ns)),
            burden_total(related_obligations(ov.take(i as int), ns)) <= burden_total(ov.take(i as int)),
        decreases ov.len() - i,
    {
        let o = &obligations[i];
        assert(ov.take(i + 1).drop_last() =~= ov.take(i as int));
        assert(ov.take(i + 1).last() == ov[i as int]);
        let ghost prev = related_obligations(ov.take(i as int), ns);
        proof {
            lemma_related_burden_bounded(ov.take(i + 1), ns);
            lemma_burden_prefix(ov, i + 1);
        }
        let related = match &o.domain_symbol_name {
            Some(d) => crate::order::texts_contain(names, d.as_str()),
            None => false,
        };
        proof {
            if o.domain_symbol_name is Some {
                let d = o.domain_symbol_name->0;
                if ns.contains(d@) {
                    assert(names.deep_view().contains(d@));
                }
            }
        }
        if related {
            let ghost cur = prev.push(*o);
            assert(related_obligations(ov.take(i + 1), ns) == cur);
            assert(cur.drop_last() =~= prev);
            let ghost f0 = files.deep_view();
            let ghost v0 = variants.deep_view();
            let mut j: usize = 0;
            while j < o.files.len()
                invariant
                    j <= o.files@.len(),
                    files.deep_view() == f0 + o.files.deep_view().take(j as int),
                decreases o.files@.len() - j,
            {
                push_line(&mut files, o.files[j].clone());
                assert(files.deep_view() =~= f0 + o.files.deep_view().take(j + 1));
                j = j + 1;
            }
            assert(o.files.deep_view().take(o.files@.len() as int) =~= o.files.deep_view());
            assert((f0 + o.files.deep_view()).to_set() =~= f0.to_set() + o.files.deep_view().to_set()) by {
                vstd::seq_lib::seq_to_set_distributes_over_add(f0, o.files.deep_view());
            }
            let mut j: usize = 0;
            while j < o.missing_variants.len()
                invariant
                    j <= o.missing_variants@.len(),
                    variants.deep_view() == v0 + o.missing_variants.deep_view().take(j as int),
                decreases o.missing_variants@.len() - j,
            {
                push_line(&mut variants, o.missing_variants[j].clone());
                assert(variants.deep_view() =~= v0 + o.missing_variants.deep_view().take(j + 1));
                j = j + 1;
            }
            assert(o.missing_variants.deep_view().take(o.missing_variants@.len() as int) =~= o.missing_variants.deep_view());
            assert((v0 + o.missing_variants.deep_view()).to_set() =~= v0.to_set() + o.missing_variants.deep_view().to_set())
                by {
                vstd::seq_lib::seq_to_set_distributes_over_add(v0, o.missing_variants.deep_view());
            }
            site_set_extend(&mut required, &o.required_sites);
            site_set_extend(&mut satisfied, &o.satisfied_sites);
            site_set_extend(&mut missing, &o.missing_sites);
            burden = burden + o.context_burden;
        } else {
            assert(related_obligations(ov.take(i + 1), ns) == prev);
        }
        i = i + 1;
    }
    assert(ov.take(ov.len() as int) =~= ov);
    ObligationCoverage {
        files,
        required_sites: required,
        satisfied_sites: satisfied,
        missing_sites: missing,
        missing_variants: variants,
        context_burden: burden,
    }
}

proof fn lemma_burden_prefix(os: Seq<ObligationReport>, i: int)
    requires
        0 <= i <= os.len(),
    ensures
        burden_total(os.take(i)) <= burden_total(os),
    decreases os.len() - i,
{
    if i < os.len() {
        lemma_burden_prefix(os.drop_last(), i);
        assert(os.drop_last().take(i) =~= os.take(i));
    } else {
        assert(os.take(i) =~= os);
    }
}

/// Whether the semantic analysis extracted transition sites at all.
pub open spec fn has_transition_capability(caps: Seq<SemanticCapability>) -> bool {
    caps.contains(SemanticCapability::TransitionSites)
}

/// The transition sites under the roots on one of the named domains, in order.
pub open spec fn transitions_of(roots: Seq<Text>, ts: Seq<TransitionSite>, names: Set<Text>) -> Seq<TransitionSite>
    decreases ts.len(),
{
    if ts.len() == 0 {
        Seq::empty()
    } else {
        let prev = transitions_of(roots, ts.drop_last(), names);
        let t = ts.last();
        if roots_match(roots, t.path@) && names.contains(t.domain_symbol_name@) {
            prev.push(t)
        } else {
            prev
        }
    }
}

/// The sites of group `g` that name no target, in order.
pub open spec fn group_gaps(vs: Seq<TransitionView>, g: Text) -> Seq<TransitionView>
    decreases vs.len(),
{
    if vs.len() == 0 {
        Seq::empty()
    } else {
        let prev = group_gaps(vs.drop_last(), g);
        let t = vs.last();
        if t.2 == g && t.5.len() == 0 {
            prev.push(t)
        } else {
            prev
        }
    }
}

/// The gaps of the listed groups, group by group.
pub open spec fn gaps_in_groups(vs: Seq<TransitionView>, ids: Seq<Text>) -> Seq<TransitionView>
    decreases ids.len(),
{
    if ids.len() == 0 {
        Seq::empty()
    } else {
        gaps_in_groups(vs, ids.drop_last()) + group_gaps(vs, ids.last())
    }
}

/// The transition sites without a next state: group by group in increasing
/// group id, each group's gaps in order.
pub open spec fn transition_gaps(vs: Seq<TransitionView>) -> Seq<TransitionView> {
    gaps_in_groups(vs, sorted_set(vs.map_values(|t: TransitionView| t.2).to_set()))
}

/// The source variants of the sites.
pub open spec fn source_variants(vs: Seq<TransitionView>) -> Set<Text>
    decreases vs.len(),
{
    if vs.len() == 0 {
        Set::empty()
    } else {
        let prev = source_variants(vs.drop_last());
        match vs.last().4 {
            Some(v) => prev.insert(v),
            None => prev,
        }
    }
}

/// Some transition of domain `d` starts from variant `v`.
pub open spec fn covers(vs: Seq<TransitionView>, d: Text, v: Text) -> bool {
    exists|i: int| 0 <= i < vs.len() && (#[trigger] vs[i]).1 == d && vs[i].4 == Some(v)
}

/// No later domain has the name of domain `i`.
pub open spec fn last_of_name(domains: Seq<ClosedDomain>, i: int) -> bool {
    forall|j: int| i < j < domains.len() ==> (#[trigger] domains[j]).symbol_name@ != domains[i].symbol_name@
}

/// `v` is a variant of domain `i`, the last declaration of its name, and no
/// transition starts from it.
pub open spec fn uncovered_at(domains: Seq<ClosedDomain>, vs: Seq<TransitionView>, i: int, v: Text) -> bool {
    &&& last_of_name(domains, i)
    &&& domains[i].variants.deep_view().contains(v)
    &&& !covers(vs, domains[i].symbol_name@, v)
}

/// The uncovered variants of the first `k` domains.
pub open spec fn uncovered_upto(domains: Seq<ClosedDomain>, vs: Seq<TransitionView>, k: int) -> Set<Text> {
    Set::new(|v: Text| exists|i: int| 0 <= i < k && #[trigger] uncovered_at(domains, vs, i, v))
}

/// The variants of the domains (the last declaration of each name) that no
/// transition starts from.
pub open spec fn uncovered_variants(domains: Seq<ClosedDomain>, vs: Seq<TransitionView>) -> Set<Text> {
    uncovered_upto(domains, vs, domains.len() as int)
}

/// The source variants without transition coverage: those of gap sites,
/// and, when there are transitions, the domain variants no transition starts from.
pub open spec fn missing_transition_set(domains: Seq<ClosedDomain>, vs: Seq<TransitionView>) -> Set<Text> {
    let gaps = source_variants(transition_gaps(vs));
    if vs.len() == 0 {
        gaps
    } else {
        gaps + uncovered_variants(domains, vs)
    }
}

/// An owned copy of a transition site.
fn copy_transition(t: &TransitionSite) -> (r: TransitionSite)
    ensures
        r@ == t@,
{
    let r = TransitionSite {
        path: t.path.clone(),
        domain_symbol_name: t.domain_symbol_name.clone(),
        group_id: t.group_id.clone(),
        transition_kind: t.transition_kind,
        source_variant: match &t.source_variant {
            Some(v) => Some(v.clone()),
            None => None,
        },
        target_variants: crate::clone_groups::copy_strings(&t.target_variants),
        line: t.line,
    };
    proof {
        assert(r.target_variants.deep_view() =~= t.target_variants.deep_view());
    }
    r
}

/// Appends a copy of a transition site.
fn push_transition(v: &mut Vec<TransitionSite>, t: &TransitionSite)
    ensures
        transition_views(final(v)@) == transition_views(old(v)@).push(t@),
{
    let c = copy_transition(t);
    v.push(c);
    assert(transition_views(v@) =~= transition_views(old(v)@).push(t@));
}

/// Copies of the transition sites under the roots on the named domains.
fn relevant_transitions(roots: &Vec<String>, ts: &Vec<TransitionSite>, names: &Vec<String>) -> (r: Vec<TransitionSite>)
    ensures
        transition_views(r@) == transition_views(transitions_of(roots.deep_view(), ts@, names.deep_view().to_set())),
{
    let ghost rv = roots.deep_view();
    let ghost tv = ts@;
    let ghost ns = names.deep_view().to_set();
    let mut r: Vec<TransitionSite> = Vec::new();
    let mut i: usize = 0;
    assert(tv.take(0) =~= Seq::<TransitionSite>::empty());
    assert(transition_views(r@) =~= Seq::<TransitionView>::empty());
    while i < ts.len()
        invariant
            rv == roots.deep_view(),
            tv == ts@,
            ns == names.deep_view().to_set(),
            i <= tv.len(),
            transition_views(r@) == transition_views(transitions_of(rv, tv.take(i as int), ns)),
        decreases tv.len() - i,
    {
        assert(tv.take(i + 1).drop_last() =~= tv.take(i as int));
        assert(tv.take(i + 1).last() == tv[i as int]);
        let ghost prev = transitions_of(rv, tv.take(i as int), ns);
        let named = crate::order::texts_contain(names, ts[i].domain_symbol_name.as_str());
        proof {
            if ns.contains(ts@[i as int].domain_symbol_name@) {
                assert(names.deep_view().contains(ts@[i as int].domain_symbol_name@));
            }
        }
        if roots_match_path(roots, ts[i].path.as_str()) && named {
            push_transition(&mut r, &ts[i]);
            assert(transitions_of(rv, tv.take(i + 1), ns) == prev.push(tv[i as int]));
            assert(transition_views(prev.push(tv[i as int])) =~= transition_views(prev).push(tv[i as int]@));
        } else {
            assert(transitions_of(rv, tv.take(i + 1), ns) == prev);
        }
        i = i + 1;
    }
    assert(tv.take(tv.len() as int) =~= tv);
    r
}

/// Copies of the transition sites without a next state (see `transition_gaps`).
fn transition_gap_list(ts: &Vec<TransitionSite>) -> (r: Vec<TransitionSite>)
    ensures
        transition_views(r@) == transition_gaps(transition_views(ts@)),
{
    let ghost tv = transition_views(ts@);
    let mut ids: Vec<String> = Vec::new();
    let mut i: usize = 0;
    while i < ts.len()
        invariant
            tv == transition_views(ts@),
            i <= tv.len(),
            ids.deep_view() == tv.take(i as int).map_values(|t: TransitionView| t.2),
        decreases tv.len() - i,
    {
        push_line(&mut ids, ts[i].group_id.clone());
        assert(ids.deep_view() =~= tv.take(i + 1).map_values(|t: TransitionView| t.2));
        i = i + 1;
    }
    assert(tv.take(tv.len() as int) =~= tv);
    let sorted = sorted_set_of(&ids);
    let ghost sv = sorted.deep_view();
    let mut r: Vec<TransitionSite> = Vec::new();
    assert(transition_views(r@) =~= Seq::<TransitionView>::empty());
    assert(sv.take(0) =~= Seq::<Text>::empty());
    let mut j: usize = 0;
    while j < sorted.len()
        invariant
            tv == transition_views(ts@),
            sv == sorted.deep_view(),
            j <= sv.len(),
            transition_views(r@) == gaps_in_groups(tv, sv.take(j as int)),
        decreases sv.len() - j,
    {
        assert(sv.take(j + 1).drop_last() =~= sv.take(j as int));
        assert(sv.take(j + 1).last() == sv[j as int]);
        let ghost base = transition_views(r@);
        let ghost g = sv[j as int];
        let mut k: usize = 0;
        assert(tv.take(0) =~= Seq::<TransitionView>::empty());
        assert(base =~= base + group_gaps(tv.take(0), g));
        while k < ts.len()
            invariant
                tv == transition_views(ts@),
                g == sv[j as int],
                sv == sorted.deep_view(),
                j < sv.len(),
                k <= tv.len(),
                transition_views(r@) == base + group_gaps(tv.take(k as int), g),
            decreases tv.len() - k,
        {
            assert(tv.take(k + 1).drop_last() =~= tv.take(k as int));
            assert(tv.take(k + 1).last() == tv[k as int]);
            assert(tv[k as int] == ts@[k as int]@);
            let ghost prev = group_gaps(tv.take(k as int), g);
            if text_eq(ts[k].group_id.as_str(), sorted[j].as_str()) && ts[k].target_variants.len() == 0 {
                push_transition(&mut r, &ts[k]);
                assert(group_gaps(tv.take(k + 1), g) == prev.push(tv[k as int]));
                assert(transition_views(r@) =~= base + group_gaps(tv.take(k + 1), g));
            } else {
                assert(group_gaps(tv.take(k + 1), g) == prev);
            }
            k = k + 1;
        }
        assert(tv.take(tv.len() as int) =~= tv);
        assert(gaps_in_groups(tv, sv.take(j + 1)) =~= gaps_in_groups(tv, sv.take(j as int)) + group_gaps(tv, g));
        j = j + 1;
    }
    assert(sv.take(sv.len() as int) =~= sv);
    r
}

/// Whether some transition of domain `d` starts from variant `v`.
fn covers_variant(ts: &Vec<TransitionSite>, d: &str, v: &str) -> (r: bool)
    ensures
        r == covers(transition_views(ts@), d@, v@),
{
    let ghost vs = transition_views(ts@);
    let mut i: usize = 0;
    while i < ts.len()
        invariant
            vs == transition_views(ts@),
            i <= ts@.len(),
            forall|k: int| 0 <= k < i ==> !((#[trigger] vs[k]).1 == d@ && vs[k].4 == Some(v@)),
        decreases ts@.len() - i,
    {
        assert(vs[i as int] == ts@[i as int]@);
        let hit = match &ts[i].source_variant {
            Some(s) => text_eq(ts[i].domain_symbol_name.as_str(), d) && text_eq(s.as_str(), v),
            None => false,
        };
        if hit {
            assert(vs[i as int].1 == d@ && vs[i as int].4 == Some(v@));
            return true;
        }
        i = i + 1;
    }
    false
}

/// The missing transition variants (see `missing_transition_set`), given
/// the model's domains by position, its transitions and their gaps.
fn missing_transition_variant_list(
    domains: &Vec<ClosedDomain>,
    positions: &Vec<usize>,
    ts: &Vec<TransitionSite>,
    gaps: &Vec<TransitionSite>,
    Ghost(rel): Ghost<Seq<ClosedDomain>>,
) -> (r: Vec<String>)
    requires
        positions@.len() == rel.len(),
        forall|k: int|
            0 <= k < positions@.len() ==> #[trigger] positions@[k] < domains@.len() && domains@[positions@[k] as int]
                == rel[k],
    ensures
        r.deep_view().to_set() == (if ts@.len() == 0 {
            source_variants(transition_views(gaps@))
        } else {
            source_variants(transition_views(gaps@)) + uncovered_variants(rel, transition_views(ts@))
        }),
{
    let ghost gv = transition_views(gaps@);
    let ghost vs = transition_views(ts@);
    let mut r: Vec<String> = Vec::new();
    let mut i: usize = 0;
    assert(gv.take(0) =~= Seq::<TransitionView>::empty());
    assert(r.deep_view().to_set() =~= Set::<Text>::empty());
    while i < gaps.len()
        invariant
            gv == transition_views(gaps@),
            i <= gaps@.len(),
            r.deep_view().to_set() == source_variants(gv.take(i as int)),
        decreases gaps@.len() - i,
    {
        assert(gv.take(i + 1).drop_last() =~= gv.take(i as int));
        assert(gv.take(i + 1).last() == gaps@[i as int]@);
        let ghost r0 = r.deep_view();
        match &gaps[i].source_variant {
            Some(v) => {
                push_line(&mut r, v.clone());
                proof {
                    r0.lemma_push_to_set_commute(v@);
                }
            },
            None => {},
        }
        i = i + 1;
    }
    assert(gv.take(gv.len() as int) =~= gv);
    if ts.len() == 0 {
        return r;
    }
    let ghost base = r.deep_view().to_set();
    let mut k: usize = 0;
    assert(uncovered_upto(rel, vs, 0) =~= Set::<Text>::empty());
    assert(base + Set::<Text>::empty() =~= base);
    while k < positions.len()
        invariant
            positions@.len() == rel.len(),
            forall|q: int|
                0 <= q < positions@.len() ==> #[trigger] positions@[q] < domains@.len() && domains@[positions@[q] as int]
                    == rel[q],
            vs == transition_views(ts@),
            k <= rel.len(),
            r.deep_view().to_set() == base + uncovered_upto(rel, vs, k as int),
        decreases rel.len() - k,
    {
        let d = &domains[positions[k]];
        assert(*d == rel[k as int]);
        let mut last = true;
        let mut j: usize = k + 1;
        while j < positions.len()
            invariant
                positions@.len() == rel.len(),
                forall|q: int|
                    0 <= q < positions@.len() ==> #[trigger] positions@[q] < domains@.len() && domains@[positions@[q] as int]
                        == rel[q],
                *d == rel[k as int],
                k < j <= rel.len() || (j == k + 1 && k < rel.len()),
                last == (forall|q: int| k < q < j ==> (#[trigger] rel[q]).symbol_name@ != rel[k as int].symbol_name@),
            decreases rel.len() - j,
        {
            let other = &domains[positions[j]];
            assert(*other == rel[j as int]);
            if text_eq(other.symbol_name.as_str(), d.symbol_name.as_str()) {
                last = false;
            }
            j = j + 1;
        }
        assert(last == last_of_name(rel, k as int));
        let ghost mid = r.deep_view().to_set();
        if last {
            let mut m: usize = 0;
            assert(d.variants.deep_view().take(0) =~= Seq::<Text>::empty());
            while m < d.variants.len()
                invariant
                    *d == rel[k as int],
                    k < rel.len(),
                    last_of_name(rel, k as int),
                    vs == transition_views(ts@),
                    m <= d.variants@.len(),
                    r.deep_view().to_set() == mid + Set::new(
                        |v: Text| d.variants.deep_view().take(m as int).contains(v) && !covers(vs, d.symbol_name@, v),
                    ),
                decreases d.variants@.len() - m,
            {
                let ghost r0 = r.deep_view();
                let ghost vm = d.variants.deep_view()[m as int];
                let ghost t0 = d.variants.deep_view().take(m as int);
                let ghost t1 = d.variants.deep_view().take(m + 1);
                let ghost s0 = Set::new(|v: Text| t0.contains(v) && !covers(vs, d.symbol_name@, v));
                let ghost s1 = Set::new(|v: Text| t1.contains(v) && !covers(vs, d.symbol_name@, v));
                assert(r0.to_set() == mid + s0);
                assert(t1 =~= t0.push(vm));
                assert forall|v: Text| t1.contains(v) <==> (t0.contains(v) || v == vm) by {
                    if t1.contains(v) && !t0.contains(v) {
                        let q = choose|q: int| 0 <= q < t1.len() && t1[q] == v;
                        if q < m {
                            assert(t0[q] == v);
                        }
                    }
                    if t0.contains(v) {
                        let q = choose|q: int| 0 <= q < t0.len() && t0[q] == v;
                        assert(t1[q] == v);
                    }
                    if v == vm {
                        assert(t1[m as int] == v);
                    }
                }
                let covered = covers_variant(ts, d.symbol_name.as_str(), d.variants[m].as_str());
                if !covered {
                    push_line(&mut r, d.variants[m].clone());
                    proof {
                        r0.lemma_push_to_set_commute(vm);
                        assert(s1 =~= s0.insert(vm));
                    }
                } else {
                    assert(s1 =~= s0);
                }
                assert(r.deep_view().to_set() =~= mid + s1);
                m = m + 1;
            }
            assert(d.variants.deep_view().take(d.variants@.len() as int) =~= d.variants.deep_view());
        }
        assert(r.deep_view().to_set() =~= base + uncovered_upto(rel, vs, k + 1)) by {
            assert forall|v: Text| uncovered_upto(rel, vs, k + 1).contains(v) implies #[trigger] r.deep_view().to_set().contains(v) by {
                let i = choose|i: int| 0 <= i < k + 1 && #[trigger] uncovered_at(rel, vs, i, v);
                if i < k {
                    assert(uncovered_upto(rel, vs, k as int).contains(v));
                }
            }
            assert forall|v: Text| r.deep_view().to_set().contains(v) && !base.contains(v) implies #[trigger] uncovered_upto(
                rel,
                vs,
                k + 1,
            ).contains(v) by {
                if uncovered_upto(rel, vs, k as int).contains(v) {
                    let i = choose|i: int| 0 <= i < k && #[trigger] uncovered_at(rel, vs, i, v);
                    assert(uncovered_at(rel, vs, i, v));
                } else {
                    assert(uncovered_at(rel, vs, k as int, v));
                }
            }
        }
        k = k + 1;
    }
    r
}

/// One of the sites handles domain `d` in the demanded way: with a switch,
/// or, for `assert_never`, with an assertNever-backed default.
pub open spec fn has_proof_site(sites: Seq<ExhaustivenessSite>, d: Text, assert_never: bool) -> bool {
    exists|i: int|
        0 <= i < sites.len() && (#[trigger] sites[i]).domain_symbol_name@ == d && (if assert_never {
            sites[i].proof_kind == ExhaustivenessProofKind::AssertNever
        } else {
            sites[i].site_kind == ExhaustivenessSiteKind::Switch
        })
}

/// The names that no site handles in the demanded way, in order.
pub open spec fn names_without_proof(names: Seq<Text>, sites: Seq<ExhaustivenessSite>, assert_never: bool) -> Seq<Text>
    decreases names.len(),
{
    if names.len() == 0 {
        Seq::empty()
    } else {
        let prev = names_without_proof(names.drop_last(), sites, assert_never);
        if has_proof_site(sites, names.last(), assert_never) {
            prev
        } else {
            prev.push(names.last())
        }
    }
}

/// The domains a model demands a switch for and that lack one.
pub open spec fn missing_switch_of(m: StateModelRule, names: Seq<Text>, sites: Seq<ExhaustivenessSite>) -> Seq<Text> {
    if m.require_exhaustive_switch {
        names_without_proof(names, sites, false)
    } else {
        Seq::empty()
    }
}

/// The domains a model demands an assertNever default for and that lack one.
pub open spec fn missing_assert_never_of(m: StateModelRule, names: Seq<Text>, sites: Seq<ExhaustivenessSite>) -> Seq<
    Text,
> {
    if m.require_assert_never {
        names_without_proof(names, sites, true)
    } else {
        Seq::empty()
    }
}

/// The names among `names` that no relevant site handles in the demanded way.
fn domains_without_proof(
    names: &Vec<String>,
    sites: &Vec<ExhaustivenessSite>,
    positions: &Vec<usize>,
    assert_never: bool,
    Ghost(rel): Ghost<Seq<ExhaustivenessSite>>,
) -> (r: Vec<String>)
    requires
        positions@.len() == rel.len(),
        forall|k: int|
            0 <= k < positions@.len() ==> #[trigger] positions@[k] < sites@.len() && sites@[positions@[k] as int] == rel[k],
    ensures
        r.deep_view() == names_without_proof(names.deep_view(), rel, assert_never),
{
    let ghost nv = names.deep_view();
    let mut r: Vec<String> = Vec::new();
    let mut i: usize = 0;
    assert(nv.take(0) =~= Seq::<Text>::empty());
    assert(r.deep_view() =~= Seq::<Text>::empty());
    while i < names.len()
        invariant
            nv == names.deep_view(),
            positions@.len() == rel.len(),
            forall|k: int|
                0 <= k < positions@.len() ==> #[trigger] positions@[k] < sites@.len() && sites@[positions@[k] as int]
                    == rel[k],
            i <= nv.len(),
            r.deep_view() == names_without_proof(nv.take(i as int), rel, assert_never),
        decreases nv.len() - i,
    {
        assert(nv.take(i + 1).drop_last() =~= nv.take(i as int));
        assert(nv.take(i + 1).last() == nv[i as int]);
        let mut found = false;
        let mut k: usize = 0;
        while k < positions.len()
            invariant
                positions@.len() == rel.len(),
                forall|q: int|
                    0 <= q < positions@.len() ==> #[trigger] positions@[q] < sites@.len() && sites@[positions@[q] as int]
                        == rel[q],
                k <= rel.len(),
                nv == names.deep_view(),
                i < nv.len(),
                found == (exists|q: int|
                    0 <= q < k && (#[trigger] rel[q]).domain_symbol_name@ == nv[i as int] && (if assert_never {
                        rel[q].proof_kind == ExhaustivenessProofKind::AssertNever
                    } else {
                        rel[q].site_kind == ExhaustivenessSiteKind::Switch
                    })),
            decreases rel.len() - k,
        {
            let site = &sites[positions[k]];
            assert(*site == rel[k as int]);
            let proves = if assert_never {
                site.proof_kind == ExhaustivenessProofKind::AssertNever
            } else {
                site.site_kind == ExhaustivenessSiteKind::Switch
            };
            if proves && text_eq(site.domain_symbol_name.as_str(), names[i].as_str()) {
                found = true;
            }
            k = k + 1;
        }
        if !found {
            push_line(&mut r, names[i].clone());
        }
        i = i + 1;
    }
    assert(nv.take(nv.len() as int) =~= nv);
    r
}

/// `n` capped at `cap`.
pub open spec fn capped(n: nat, cap: nat) -> nat {
    if n > cap {
        cap
    } else {
        n
    }
}

/// The explicitness of a state model as a fraction (numerator, denominator,
/// number of components): the mean of one, the satisfied share of required
/// sites (or whether any site exists when none is required), the share of
/// domains with a switch and with an assertNever default when demanded, and,
/// when transitions are extracted, the share of transitions that name a
/// next state (none when there are no transitions).
pub open spec fn explicitness_parts(
    require_switch: bool,
    require_assert_never: bool,
    domain_count: nat,
    site_count: nat,
    required_site_count: nat,
    satisfied_site_count: nat,
    missing_switch_count: nat,
    missing_assert_never_count: nat,
    transition_sites_supported: bool,
    transition_site_count: nat,
    transition_gap_count: nat,
) -> (int, int, int) {
    let r: int = if required_site_count == 0 { 1 } else { required_site_count as int };
    let coverage: int = if required_site_count == 0 {
        if site_count > 0 { 1 } else { 0 }
    } else {
        capped(satisfied_site_count, required_site_count) as int
    };
    let d: int = domain_count as int;
    let switch_part: int = if require_switch { d - capped(missing_switch_count, domain_count) } else { 0 };
    let assert_part: int = if require_assert_never { d - capped(missing_assert_never_count, domain_count) } else { 0 };
    let t: int = if transition_site_count == 0 { 1 } else { transition_site_count as int };
    let transition_part: int = if transition_sites_supported && transition_site_count > 0 {
        transition_site_count - capped(transition_gap_count, transition_site_count)
    } else {
        0
    };
    let n: int = 2 + (if require_switch { 1int } else { 0int }) + (if require_assert_never { 1int } else { 0int }) + (
    if transition_sites_supported { 1int } else { 0int });
    let den: int = r * d * t;
    let num: int = den + coverage * d * t + (switch_part + assert_part) * r * t + transition_part * r * d;
    (num, den, n)
}

/// The explicitness score: zero without domains, otherwise the mean of the
/// components (see `explicitness_parts`) scaled to 0..=10000 and rounded
/// half up.
pub open spec fn explicitness_score_of(
    require_switch: bool,
    require_assert_never: bool,
    domain_count: nat,
    site_count: nat,
    required_site_count: nat,
    satisfied_site_count: nat,
    missing_switch_count: nat,
    missing_assert_never_count: nat,
    transition_sites_supported: bool,
    transition_site_count: nat,
    transition_gap_count: nat,
) -> int {
    if domain_count == 0 {
        0
    } else {
        let (num, den, n) = explicitness_parts(
            require_switch,
            require_assert_never,
            domain_count,
            site_count,
            required_site_count,
            satisfied_site_count,
            missing_switch_count,
            missing_assert_never_count,
            transition_sites_supported,
            transition_site_count,
            transition_gap_count,
        );
        (20000 * num + n * den) / (2 * n * den)
    }
}

/// The explicitness score of a state model (see `explicitness_score_of`).
#[verifier::rlimit(40)]
pub fn explicitness_score_0_10000(
    model: &StateModelRule,
    domain_count: usize,
    site_count: usize,
    required_site_count: usize,
    satisfied_site_count: usize,
    missing_switch_count: usize,
    missing_assert_never_count: usize,
    transition_sites_supported: bool,
    transition_site_count: usize,
    transition_gap_count: usize,
) -> (r: u32)
    requires
        domain_count <= u32::MAX,
        required_site_count <= u32::MAX,
        transition_site_count <= u32::MAX,
    ensures
        r == explicitness_score_of(
            model.require_exhaustive_switch,
            model.require_assert_never,
            domain_count as nat,
            site_count as nat,
            required_site_count as nat,
            satisfied_site_count as nat,
            missing_switch_count as nat,
            missing_assert_never_count as nat,
            transition_sites_supported,
            transition_site_count as nat,
            transition_gap_count as nat,
        ),
        r <= 10000,
{
    if domain_count == 0 {
        return 0;
    }
    let rs = model.require_exhaustive_switch;
    let ra = model.require_assert_never;
    let r: u128 = if required_site_count == 0 { 1 } else { required_site_count as u128 };
    let coverage: u128 = if required_site_count == 0 {
        if site_count > 0 { 1 } else { 0 }
    } else if satisfied_site_count > required_site_count {
        required_site_count as u128
    } else {
        satisfied_site_count as u128
    };
    let d: u128 = domain_count as u128;
    let switch_part: u128 = if rs {
        if missing_switch_count > domain_count { 0 } else { (domain_count - missing_switch_count) as u128 }
    } else {
        0
    };
    let assert_part: u128 = if ra {
        if missing_assert_never_count > domain_count { 0 } else { (domain_count - missing_assert_never_count) as u128 }
    } else {
        0
    };
    let t: u128 = if transition_site_count == 0 { 1 } else { transition_site_count as u128 };
    let transition_part: u128 = if transition_sites_supported && transition_site_count > 0 {
        if transition_gap_count > transition_site_count { 0 } else { (transition_site_count - transition_gap_count) as u128 }
    } else {
        0
    };
    let n: u128 = 2 + (if rs { 1 } else { 0 }) + (if ra { 1 } else { 0 }) + (if transition_sites_supported { 1 } else { 0 });
    let ghost max: int = 0x1_0000_0000;
    assert(r * d <= max * max && r * d >= 1) by (nonlinear_arith)
        requires
            1 <= r <= max,
            1 <= d <= max,
    ;
    let rd = r * d;
    assert(rd * t <= max * max * max && rd * t >= 1) by (nonlinear_arith)
        requires
            1 <= rd <= max * max,
            1 <= t <= max,
    ;
    let den = rd * t;
    assert(coverage * d <= rd) by (nonlinear_arith)
        requires
            coverage <= r,
            rd == r * d,
    ;
    let cd = coverage * d;
    assert(cd * t <= den) by (nonlinear_arith)
        requires
            cd <= rd,
            den == rd * t,
    ;
    let cdt = cd * t;
    let sp = switch_part + assert_part;
    assert(sp * r <= 2 * rd) by (nonlinear_arith)
        requires
            sp <= (if rs { d } else { 0 }) + (if ra { d } else { 0 }),
            rd == r * d,
    ;
    let spr = sp * r;
    assert(spr * t <= ((if rs { 1int } else { 0int }) + (if ra { 1int } else { 0int })) * den) by (nonlinear_arith)
        requires
            sp <= (if rs { d } else { 0 }) + (if ra { d } else { 0 }),
            spr == sp * r,
            rd == r * d,
            den == rd * t,
    ;
    let sprt = spr * t;
    assert(transition_part * r <= max * max) by (nonlinear_arith)
        requires
            transition_part <= t,
            t <= max,
            1 <= r <= max,
    ;
    let tpr = transition_part * r;
    assert(tpr * d <= (if transition_sites_supported { 1int } else { 0int }) * den) by (nonlinear_arith)
        requires
            tpr == transition_part * r,
            transition_part <= t,
            transition_sites_supported || transition_part == 0,
            rd == r * d,
            den == rd * t,
    ;
    let tprd = tpr * d;
    let num = den + cdt + sprt + tprd;
    assert(n == 2 + (if rs { 1int } else { 0int }) + (if ra { 1int } else { 0int }) + (if transition_sites_supported { 1int } else { 0int }));
    assert(cdt <= den);
    assert(sprt <= ((if rs { 1int } else { 0int }) + (if ra { 1int } else { 0int })) * den);
    assert(tprd <= (if transition_sites_supported { 1int } else { 0int }) * den);
    assert(num <= n * den) by (nonlinear_arith)
        requires
            num == den + cdt + sprt + tprd,
            cdt <= den,
            sprt <= ((if rs { 1int } else { 0int }) + (if ra { 1int } else { 0int })) * den,
            tprd <= (if transition_sites_supported { 1int } else { 0int }) * den,
            n == 2 + (if rs { 1int } else { 0int }) + (if ra { 1int } else { 0int }) + (if transition_sites_supported { 1int } else { 0int }),
            den >= 1,
    ;
    proof {
        let (pn, pd, pc) = explicitness_parts(
            rs,
            ra,
            domain_count as nat,
            site_count as nat,
            required_site_count as nat,
            satisfied_site_count as nat,
            missing_switch_count as nat,
            missing_assert_never_count as nat,
            transition_sites_supported,
            transition_site_count as nat,
            transition_gap_count as nat,
        );
        assert(pd == den) by (nonlinear_arith)
            requires
                pd == r * d * t,
                den == rd * t,
                rd == r * d,
        ;
        assert(pn == num) by (nonlinear_arith)
            requires
                pn == pd + coverage * d * t + sp * r * t + transition_part * r * d,
                pd == den,
                num == den + cdt + sprt + tprd,
                cdt == cd * t,
                cd == coverage * d,
                sprt == spr * t,
                spr == sp * r,
                tprd == tpr * d,
                tpr == transition_part * r,
        ;
        assert(pc == n);
    }
    rounded_mean_score(num, den, n)
}

/// `num / (n * den)` scaled to 0..=10000 and rounded half up.
fn rounded_mean_score(num: u128, den: u128, n: u128) -> (r: u32)
    requires
        1 <= den <= 0x1_0000_0000 * 0x1_0000_0000 * 0x1_0000_0000,
        2 <= n <= 5,
        num <= n * den,
    ensures
        r == (20000 * num + n * den) / (2 * n * den),
        r <= 10000,
{
    assert(n * den <= 5 * den && 2 * n * den >= 4 && 2 * n * den <= 10 * den) by (nonlinear_arith)
        requires
            2 <= n <= 5,
            den >= 1,
    ;
    assert(20000 * num + n * den <= 100005 * den) by (nonlinear_arith)
        requires
            num <= n * den,
            n * den <= 5 * den,
    ;
    assert((20000 * num + n * den) / (2 * n * den) <= 10000) by (nonlinear_arith)
        requires
            num <= n * den,
            den >= 1,
            n >= 2,
    ;
    let score = (20000 * num + n * den) / (2 * n * den);
    score as u32
}

/// The model's transition sites: under its roots, on its domains.
pub open spec fn model_transitions(m: StateModelRule, semantic: SemanticSnapshot) -> Seq<TransitionSite> {
    transitions_of(m.roots.deep_view(), semantic.transition_sites@, model_domain_names(m, semantic).to_set())
}

/// The files a model's report lists: those of its domains, sites, related
/// obligations and transitions.
pub open spec fn report_file_set(m: StateModelRule, semantic: SemanticSnapshot, obligations: Seq<ObligationReport>) -> Set<
    Text,
> {
    let names = model_domain_names(m, semantic).to_set();
    model_domains(m, semantic).map_values(|d: ClosedDomain| d.path@).to_set() + model_sites(m, semantic).map_values(
        |x: ExhaustivenessSite| x.path@,
    ).to_set() + obligation_file_set(related_obligations(obligations, names)) + transition_views(
        model_transitions(m, semantic),
    ).map_values(|t: TransitionView| t.0).to_set()
}

/// `r` is the state-integrity report of model `m` over the facts and the
/// obligations.
pub open spec fn describes_state_report(
    r: StateIntegrityReport,
    m: StateModelRule,
    semantic: SemanticSnapshot,
    obligations: Seq<ObligationReport>,
) -> bool {
    let names = model_domain_names(m, semantic);
    let rel = related_obligations(obligations, names.to_set());
    let sites = model_sites(m, semantic);
    let tv = transition_views(model_transitions(m, semantic));
    let gaps = transition_gaps(tv);
    let supported = has_transition_capability(semantic.capabilities@);
    &&& r.id@ == m.id@
    &&& r.kind@ == m.kind@
    &&& r.roots.deep_view() == m.roots.deep_view()
    &&& r.domain_symbol_names.deep_view() == names
    &&& r.files.deep_view() == sorted_set(report_file_set(m, semantic, obligations))
    &&& site_views(r.required_sites@) == sorted_set_by(required_site_set(rel), site_order())
    &&& site_views(r.satisfied_sites@) == sorted_set_by(satisfied_site_set(rel), site_order())
    &&& site_views(r.missing_sites@) == sorted_set_by(missing_site_set(rel), site_order())
    &&& r.missing_variants.deep_view() == sorted_set(missing_variant_set(rel))
    &&& r.missing_exhaustive_switch_domains.deep_view() == missing_switch_of(m, names, sites)
    &&& r.missing_assert_never_domains.deep_view() == missing_assert_never_of(m, names, sites)
    &&& r.transition_sites_supported == supported
    &&& transition_views(r.transition_sites@) == tv
    &&& transition_views(r.transition_gap_sites@) == gaps
    &&& r.missing_transition_variants.deep_view() == sorted_set(missing_transition_set(model_domains(m, semantic), tv))
    &&& r.explicitness_score_0_10000 == explicitness_score_of(
        m.require_exhaustive_switch,
        m.require_assert_never,
        names.len(),
        sites.len(),
        r.required_sites@.len(),
        r.satisfied_sites@.len(),
        r.missing_exhaustive_switch_domains@.len(),
        r.missing_assert_never_domains@.len(),
        supported,
        tv.len(),
        gaps.len(),
    )
    &&& r.context_burden == burden_total(rel) + tv.len()
}

/// The number of required sites over all obligations.
pub open spec fn required_total(os: Seq<ObligationReport>) -> nat
    decreases os.len(),
{
    if os.len() == 0 {
        0
    } else {
        required_total(os.drop_last()) + os.last().required_sites@.len()
    }
}

proof fn lemma_required_set_bounded(os: Seq<ObligationReport>, names: Set<Text>)
    ensures
        required_site_set(related_obligations(os, names)).finite(),
        required_site_set(related_obligations(os, names)).len() <= required_total(os),
    decreases os.len(),
{
    if os.len() > 0 {
        lemma_required_set_bounded(os.drop_last(), names);
        let prev = related_obligations(os.drop_last(), names);
        let cur = related_obligations(os, names);
        let extra = site_views(os.last().required_sites@);
        extra.lemma_cardinality_of_set();
        if cur != prev {
            assert(cur == prev.push(os.last()));
            assert(cur.drop_last() =~= prev);
            vstd::set_lib::lemma_len_union(required_site_set(prev), extra.to_set());
        }
    }
}

proof fn lemma_sites_under_len(roots: Seq<Text>, sites: Seq<ExhaustivenessSite>)
    ensures
        sites_under(roots, sites).len() <= sites.len(),
    decreases sites.len(),
{
    if sites.len() > 0 {
        lemma_sites_under_len(roots, sites.drop_last());
    }
}

proof fn lemma_domains_of_len(roots: Seq<Text>, domains: Seq<ClosedDomain>, names: Set<Text>)
    ensures
        domains_of(roots, domains, names).len() <= domains.len(),
    decreases domains.len(),
{
    if domains.len() > 0 {
        lemma_domains_of_len(roots, domains.drop_last(), names);
    }
}

proof fn lemma_transitions_of_len(roots: Seq<Text>, ts: Seq<TransitionSite>, names: Set<Text>)
    ensures
        transitions_of(roots, ts, names).len() <= ts.len(),
    decreases ts.len(),
{
    if ts.len() > 0 {
        lemma_transitions_of_len(roots, ts.drop_last(), names);
    }
}

/// Whether the facts include transition sites.
fn transition_capability(caps: &Vec<SemanticCapability>) -> (r: bool)
    ensures
        r == has_transition_capability(caps@),
{
    let mut i: usize = 0;
    while i < caps.len()
        invariant
            i <= caps@.len(),
            forall|k: int| 0 <= k < i ==> caps@[k] != SemanticCapability::TransitionSites,
        decreases caps@.len() - i,
    {
        if caps[i] == SemanticCapability::TransitionSites {
            assert(caps@[i as int] == SemanticCapability::TransitionSites);
            return true;
        }
        i = i + 1;
    }
    false
}

/// The state-integrity report of a model (see `describes_state_report`).
#[verifier::rlimit(60)]
pub fn build_state_integrity_report(
    model: &StateModelRule,
    semantic: &SemanticSnapshot,
    obligations: &Vec<ObligationReport>,
) -> (r: StateIntegrityReport)
    requires
        burden_total(obligations@) + semantic.transition_sites@.len() <= usize::MAX,
        required_total(obligations@) <= u32::MAX,
        semantic.closed_domains@.len() + semantic.closed_domain_sites@.len() <= u32::MAX,
        semantic.transition_sites@.len() <= u32::MAX,
    ensures
        describes_state_report(r, *model, *semantic, obligations@),
{
    let ghost m = *model;
    let ghost sem = *semantic;
    let site_pos = relevant_site_positions(&model.roots, &semantic.closed_domain_sites);
    let ghost rel_sites = model_sites(m, sem);
    let mut site_names: Vec<String> = Vec::new();
    let mut site_paths: Vec<String> = Vec::new();
    let mut k: usize = 0;
    while k < site_pos.len()
        invariant
            rel_sites == model_sites(m, sem),
            site_pos@.len() == rel_sites.len(),
            forall|q: int|
                0 <= q < site_pos@.len() ==> #[trigger] site_pos@[q] < semantic.closed_domain_sites@.len()
                    && semantic.closed_domain_sites@[site_pos@[q] as int] == rel_sites[q],
            k <= rel_sites.len(),
            site_names.deep_view() == rel_sites.take(k as int).map_values(|x: ExhaustivenessSite| x.domain_symbol_name@),
            site_paths.deep_view() == rel_sites.take(k as int).map_values(|x: ExhaustivenessSite| x.path@),
        decreases rel_sites.len() - k,
    {
        let site = &semantic.closed_domain_sites[site_pos[k]];
        push_line(&mut site_names, site.domain_symbol_name.clone());
        push_line(&mut site_paths, site.path.clone());
        assert(rel_sites.take(k + 1) =~= rel_sites.take(k as int).push(rel_sites[k as int]));
        assert(site_names.deep_view() =~= rel_sites.take(k + 1).map_values(|x: ExhaustivenessSite| x.domain_symbol_name@));
        assert(site_paths.deep_view() =~= rel_sites.take(k + 1).map_values(|x: ExhaustivenessSite| x.path@));
        k = k + 1;
    }
    assert(rel_sites.take(rel_sites.len() as int) =~= rel_sites);
    let dom_pos = relevant_domain_positions(&model.roots, &semantic.closed_domains, &site_names);
    let ghost rel_domains = model_domains(m, sem);
    let mut all_names: Vec<String> = Vec::new();
    let mut domain_paths: Vec<String> = Vec::new();
    let mut k: usize = 0;
    while k < dom_pos.len()
        invariant
            rel_domains == model_domains(m, sem),
            dom_pos@.len() == rel_domains.len(),
            forall|q: int|
                0 <= q < dom_pos@.len() ==> #[trigger] dom_pos@[q] < semantic.closed_domains@.len()
                    && semantic.closed_domains@[dom_pos@[q] as int] == rel_domains[q],
            k <= rel_domains.len(),
            all_names.deep_view() == rel_domains.take(k as int).map_values(|d: ClosedDomain| d.symbol_name@),
            domain_paths.deep_view() == rel_domains.take(k as int).map_values(|d: ClosedDomain| d.path@),
        decreases rel_domains.len() - k,
    {
        let d = &semantic.closed_domains[dom_pos[k]];
        push_line(&mut all_names, d.symbol_name.clone());
        push_line(&mut domain_paths, d.path.clone());
        assert(rel_domains.take(k + 1) =~= rel_domains.take(k as int).push(rel_domains[k as int]));
        assert(all_names.deep_view() =~= rel_domains.take(k + 1).map_values(|d: ClosedDomain| d.symbol_name@));
        assert(domain_paths.deep_view() =~= rel_domains.take(k + 1).map_values(|d: ClosedDomain| d.path@));
        k = k + 1;
    }
    assert(rel_domains.take(rel_domains.len() as int) =~= rel_domains);
    let ghost dn = all_names.deep_view();
    let mut extra = crate::clone_groups::copy_strings(&site_names);
    all_names.append(&mut extra);
    proof {
        assert(all_names.deep_view() =~= dn + site_names.deep_view());
        vstd::seq_lib::seq_to_set_distributes_over_add(dn, site_names.deep_view());
    }
    let names = sorted_set_of(&all_names);
    proof {
        crate::order::lemma_sorted_no_duplicates(names.deep_view());
        crate::grouping::lemma_sorted_set_of(names.deep_view());
        names.deep_view().unique_seq_to_set();
        all_names.deep_view().lemma_cardinality_of_set();
        lemma_sites_under_len(m.roots.deep_view(), sem.closed_domain_sites@);
        lemma_domains_of_len(m.roots.deep_view(), sem.closed_domains@, site_domain_set(rel_sites));
        assert(names.deep_view() == model_domain_names(m, sem));
        assert(names@.len() <= u32::MAX);
    }
    let coverage = summarize_obligation_coverage(obligations, &names);
    let ghost rel = related_obligations(obligations@, names.deep_view().to_set());
    proof {
        lemma_required_set_bounded(obligations@, names.deep_view().to_set());
        crate::site_set::lemma_site_order_strict();
        crate::site_set::lemma_sorted_set_by_of(site_views(coverage.required_sites@), site_order());
        crate::site_set::lemma_sorted_set_by_of(site_views(coverage.satisfied_sites@), site_order());
        crate::site_set::lemma_sorted_set_by_of(site_views(coverage.missing_sites@), site_order());
        assert(site_views(coverage.required_sites@).no_duplicates()) by {
            let v = site_views(coverage.required_sites@);
            assert forall|a: int, b: int| 0 <= a < v.len() && 0 <= b < v.len() && a != b implies v[a] != v[b] by {
                if a < b {
                    assert(site_order()(v[a], v[b]));
                } else {
                    assert(site_order()(v[b], v[a]));
                }
                assert(!site_order()(v[a], v[a]));
            }
        }
        site_views(coverage.required_sites@).unique_seq_to_set();
    }
    let transitions = relevant_transitions(&model.roots, &semantic.transition_sites, &names);
    proof {
        lemma_transitions_of_len(m.roots.deep_view(), sem.transition_sites@, names.deep_view().to_set());
    }
    let gaps = transition_gap_list(&transitions);
    let missing_transition = missing_transition_variant_list(
        &semantic.closed_domains,
        &dom_pos,
        &transitions,
        &gaps,
        Ghost(rel_domains),
    );
    let missing_transition_variants = sorted_set_of(&missing_transition);
    let missing_variants = sorted_set_of(&coverage.missing_variants);
    let mut files: Vec<String> = Vec::new();
    let mut part = crate::clone_groups::copy_strings(&domain_paths);
    files.append(&mut part);
    let mut part = crate::clone_groups::copy_strings(&site_paths);
    files.append(&mut part);
    let mut part = crate::clone_groups::copy_strings(&coverage.files);
    files.append(&mut part);
    let ghost before_t = files.deep_view();
    let mut k: usize = 0;
    while k < transitions.len()
        invariant
            k <= transitions@.len(),
            files.deep_view() == before_t + transition_views(transitions@).take(k as int).map_values(
                |t: TransitionView| t.0,
            ),
        decreases transitions@.len() - k,
    {
        push_line(&mut files, transitions[k].path.clone());
        assert(files.deep_view() =~= before_t + transition_views(transitions@).take(k + 1).map_values(
            |t: TransitionView| t.0,
        ));
        k = k + 1;
    }
    assert(transition_views(transitions@).take(transitions@.len() as int) =~= transition_views(transitions@));
    proof {
        let a = domain_paths.deep_view();
        let b = site_paths.deep_view();
        let c = coverage.files.deep_view();
        let d = transition_views(transitions@).map_values(|t: TransitionView| t.0);
        assert(files.deep_view() =~= a + b + c + d);
        vstd::seq_lib::seq_to_set_distributes_over_add(a, b);
        vstd::seq_lib::seq_to_set_distributes_over_add(a + b, c);
        vstd::seq_lib::seq_to_set_distributes_over_add(a + b + c, d);
        assert(files.deep_view().to_set() =~= report_file_set(m, sem, obligations@));
    }
    let files = sorted_set_of(&files);
    let missing_switch = if model.require_exhaustive_switch {
        domains_without_proof(&names, &semantic.closed_domain_sites, &site_pos, false, Ghost(rel_sites))
    } else {
        Vec::new()
    };
    let missing_assert_never = if model.require_assert_never {
        domains_without_proof(&names, &semantic.closed_domain_sites, &site_pos, true, Ghost(rel_sites))
    } else {
        Vec::new()
    };
    assert(missing_switch.deep_view() =~= missing_switch_of(m, names.deep_view(), rel_sites));
    assert(missing_assert_never.deep_view() =~= missing_assert_never_of(m, names.deep_view(), rel_sites));
    let supported = transition_capability(&semantic.capabilities);
    let score = explicitness_score_0_10000(
        model,
        names.len(),
        site_pos.len(),
        coverage.required_sites.len(),
        coverage.satisfied_sites.len(),
        missing_switch.len(),
        missing_assert_never.len(),
        supported,
        transitions.len(),
        gaps.len(),
    );
    proof {
        lemma_related_burden_bounded(obligations@, names.deep_view().to_set());
    }
    let context_burden = coverage.context_burden + transitions.len();
    StateIntegrityReport {
        id: model.id.clone(),
        kind: model.kind.clone(),
        roots: crate::clone_groups::copy_strings(&model.roots),
        domain_symbol_names: names,
        files,
        required_sites: coverage.required_sites,
        satisfied_sites: coverage.satisfied_sites,
        missing_sites: coverage.missing_sites,
        missing_variants,
        missing_exhaustive_switch_domains: missing_switch,
        missing_assert_never_domains: missing_assert_never,
        transition_sites_supported: supported,
        transition_sites: transitions,
        transition_gap_sites: gaps,
        missing_transition_variants,
        explicitness_score_0_10000: score,
        context_burden,
    }
}

/// "State model '<id>'".
pub open spec fn model_head(id: Text) -> Text {
    "State model '"@ + id + "'"@
}

/// The summary of a variant-coverage finding.
pub open spec fn variant_coverage_summary(id: Text, sites: nat, variants: nat) -> Text {
    if sites == 0 {
        model_head(id) + " is missing coverage for "@ + dec(variants) + " variant(s)"@
    } else if variants == 0 {
        model_head(id) + " is missing "@ + dec(sites) + " required state update site(s)"@
    } else {
        model_head(id) + " is missing "@ + dec(sites) + " required state update site(s) and "@ + dec(variants)
            + " variant(s)"@
    }
}

/// The summary of a transition-coverage finding.
pub open spec fn transition_coverage_summary(id: Text, gaps: nat, variants: nat) -> Text {
    if gaps == 0 {
        model_head(id) + " is missing explicit transition coverage for "@ + dec(variants) + " source variant(s)"@
    } else if variants == 0 {
        model_head(id) + " has "@ + dec(gaps) + " transition branch(es) without an explicit next-state mapping"@
    } else {
        model_head(id) + " has "@ + dec(gaps) + " transition branch(es) without an explicit next-state mapping and "@
            + dec(variants) + " uncovered source variant(s)"@
    }
}

/// The evidence line of a transition gap: `path:line [source]`.
pub open spec fn gap_line(t: TransitionView) -> Text {
    t.0 + ":"@ + dec(t.6 as nat) + " ["@ + (match t.4 {
        Some(v) => v,
        None => "unknown"@,
    }) + "]"@
}

/// A finding of a report: its kind, severity, summary and evidence, with the
/// report's id and files.
pub open spec fn report_finding(
    r: StateIntegrityReport,
    kind: Text,
    severity: FindingSeverity,
    summary: Text,
    evidence: Seq<Text>,
) -> FindingView {
    (kind, severity, r.id@, summary, r.files.deep_view(), evidence)
}

/// The missing-switch finding of a report, if any.
pub open spec fn switch_finding_part(r: StateIntegrityReport) -> Seq<FindingView> {
    if r.missing_exhaustive_switch_domains@.len() > 0 {
        seq![
            report_finding(
                r,
                "state_model_missing_exhaustive_switch"@,
                FindingSeverity::High,
                model_head(r.id@) + " is missing switch-based coverage for "@ + dec(r.missing_exhaustive_switch_domains@.len())
                    + " domain(s)"@,
                r.missing_exhaustive_switch_domains.deep_view(),
            ),
        ]
    } else {
        Seq::empty()
    }
}

/// The missing-assertNever finding of a report, if any.
pub open spec fn assert_never_finding_part(r: StateIntegrityReport) -> Seq<FindingView> {
    if r.missing_assert_never_domains@.len() > 0 {
        seq![
            report_finding(
                r,
                "state_model_missing_assert_never"@,
                FindingSeverity::Medium,
                model_head(r.id@) + " is missing assertNever-backed default handling for "@ + dec(
                    r.missing_assert_never_domains@.len(),
                ) + " domain(s)"@,
                r.missing_assert_never_domains.deep_view(),
            ),
        ]
    } else {
        Seq::empty()
    }
}

/// The variant-coverage finding of a report, if any.
pub open spec fn variant_finding_part(r: StateIntegrityReport) -> Seq<FindingView> {
    if r.missing_sites@.len() > 0 || r.missing_variants@.len() > 0 {
        seq![
            report_finding(
                r,
                "state_model_missing_variant_coverage"@,
                if r.missing_variants@.len() == 0 {
                    FindingSeverity::Medium
                } else {
                    FindingSeverity::High
                },
                variant_coverage_summary(r.id@, r.missing_sites@.len(), r.missing_variants@.len()),
                r.missing_sites@.map_values(|x: ObligationSite| x.path@ + " ["@ + x.detail@ + "]"@)
                    + r.missing_variants.deep_view().map_values(|v: Text| "missing variant '"@ + v + "'"@),
            ),
        ]
    } else {
        Seq::empty()
    }
}

/// The missing-transition-sites finding of a report, if any.
pub open spec fn transition_sites_finding_part(r: StateIntegrityReport) -> Seq<FindingView> {
    if r.transition_sites_supported && r.transition_sites@.len() == 0 {
        seq![
            report_finding(
                r,
                "state_model_missing_transition_sites"@,
                FindingSeverity::Medium,
                model_head(r.id@) + " has no explicit transition sites under its configured roots"@,
                r.roots.deep_view(),
            ),
        ]
    } else {
        Seq::empty()
    }
}

/// The transition-gap finding of a report, if any.
pub open spec fn gap_finding_part(r: StateIntegrityReport) -> Seq<FindingView> {
    if r.transition_gap_sites@.len() > 0 || r.missing_transition_variants@.len() > 0 {
        seq![
            report_finding(
                r,
                "state_model_transition_coverage_gap"@,
                FindingSeverity::High,
                transition_coverage_summary(r.id@, r.transition_gap_sites@.len(), r.missing_transition_variants@.len()),
                transition_views(r.transition_gap_sites@).map_values(|t: TransitionView| gap_line(t))
                    + r.missing_transition_variants.deep_view().map_values(
                    |v: Text| "missing transition source '"@ + v + "'"@,
                ),
            ),
        ]
    } else {
        Seq::empty()
    }
}

/// The high-context-burden finding of a report, if any.
pub open spec fn burden_finding_part(r: StateIntegrityReport) -> Seq<FindingView> {
    if r.context_burden >= 8 {
        seq![
            report_finding(
                r,
                "state_model_high_context_burden"@,
                FindingSeverity::Medium,
                model_head(r.id@) + " has high static context burden ("@ + dec(r.context_burden as nat) + ")"@,
                r.domain_symbol_names.deep_view(),
            ),
        ]
    } else {
        Seq::empty()
    }
}

/// The findings of one report: an unmapped model yields only that; otherwise
/// missing switches, missing assertNever defaults, missing variant coverage,
/// missing transition sites, transition gaps and a high context burden, each
/// when it applies, in that order.
pub open spec fn state_report_findings(r: StateIntegrityReport) -> Seq<FindingView> {
    if r.domain_symbol_names@.len() == 0 {
        seq![
            report_finding(
                r,
                "state_model_unmapped"@,
                FindingSeverity::Medium,
                model_head(r.id@) + " has no matching closed-domain coverage under its configured roots"@,
                r.roots.deep_view(),
            ),
        ]
    } else {
        switch_finding_part(r) + assert_never_finding_part(r) + variant_finding_part(r) + transition_sites_finding_part(r)
            + gap_finding_part(r) + burden_finding_part(r)
    }
}

/// The kinds of a report's findings, in the order they are listed: an
/// unmapped model has only the unmapped finding; otherwise missing switch
/// coverage, missing assertNever handling, missing variant coverage,
/// missing transition sites, transition coverage gaps and high context
/// burden, each where it applies.
pub open spec fn state_finding_kinds(r: StateIntegrityReport) -> Seq<Text> {
    if r.domain_symbol_names@.len() == 0 {
        seq!["state_model_unmapped"@]
    } else {
        (if r.missing_exhaustive_switch_domains@.len() > 0 {
            seq!["state_model_missing_exhaustive_switch"@]
        } else {
            Seq::empty()
        }) + (if r.missing_assert_never_domains@.len() > 0 {
            seq!["state_model_missing_assert_never"@]
        } else {
            Seq::empty()
        }) + (if r.missing_sites@.len() > 0 || r.missing_variants@.len() > 0 {
            seq!["state_model_missing_variant_coverage"@]
        } else {
            Seq::empty()
        }) + (if r.transition_sites_supported && r.transition_sites@.len() == 0 {
            seq!["state_model_missing_transition_sites"@]
        } else {
            Seq::empty()
        }) + (if r.transition_gap_sites@.len() > 0 || r.missing_transition_variants@.len() > 0 {
            seq!["state_model_transition_coverage_gap"@]
        } else {
            Seq::empty()
        }) + (if r.context_burden >= 8 {
            seq!["state_model_high_context_burden"@]
        } else {
            Seq::empty()
        })
    }
}

/// The kinds of the findings, in order.
pub open spec fn finding_kinds(s: Seq<FindingView>) -> Seq<Text> {
    s.map_values(|f: FindingView| f.0)
}

proof fn lemma_part_kind(p: Seq<FindingView>, cond: bool, k: Text, id: Text)
    requires
        cond ==> p.len() == 1 && p[0].0 == k && p[0].2 == id,
        !cond ==> p.len() == 0,
    ensures
        finding_kinds(p) == (if cond { seq![k] } else { Seq::<Text>::empty() }),
        forall|i: int| 0 <= i < p.len() ==> (#[trigger] p[i]).2 == id,
{
    if cond {
        assert(finding_kinds(p) =~= seq![k]);
    } else {
        assert(finding_kinds(p) =~= Seq::<Text>::empty());
    }
}

proof fn lemma_kinds_concat(a: Seq<FindingView>, b: Seq<FindingView>, id: Text)
    requires
        forall|i: int| 0 <= i < a.len() ==> (#[trigger] a[i]).2 == id,
        forall|i: int| 0 <= i < b.len() ==> (#[trigger] b[i]).2 == id,
    ensures
        finding_kinds(a + b) == finding_kinds(a) + finding_kinds(b),
        forall|i: int| 0 <= i < (a + b).len() ==> (#[trigger] (a + b)[i]).2 == id,
{
    assert(finding_kinds(a + b) =~= finding_kinds(a) + finding_kinds(b));
    assert forall|i: int| 0 <= i < (a + b).len() implies (#[trigger] (a + b)[i]).2 == id by {
        if i < a.len() {
            assert((a + b)[i] == a[i]);
        } else {
            assert((a + b)[i] == b[i - a.len()]);
        }
    }
}

proof fn lemma_switch_kind(r: StateIntegrityReport)
    ensures
        finding_kinds(switch_finding_part(r)) == (if r.missing_exhaustive_switch_domains@.len() > 0 {
            seq!["state_model_missing_exhaustive_switch"@]
        } else {
            Seq::<Text>::empty()
        }),
        forall|i: int| 0 <= i < switch_finding_part(r).len() ==> (#[trigger] switch_finding_part(r)[i]).2 == r.id@,
{
    lemma_part_kind(switch_finding_part(r), r.missing_exhaustive_switch_domains@.len() > 0, "state_model_missing_exhaustive_switch"@, r.id@);
}

proof fn lemma_assert_never_kind(r: StateIntegrityReport)
    ensures
        finding_kinds(assert_never_finding_part(r)) == (if r.missing_assert_never_domains@.len() > 0 {
            seq!["state_model_missing_assert_never"@]
        } else {
            Seq::<Text>::empty()
        }),
        forall|i: int| 0 <= i < assert_never_finding_part(r).len() ==> (#[trigger] assert_never_finding_part(r)[i]).2 == r.id@,
{
    lemma_part_kind(assert_never_finding_part(r), r.missing_assert_never_domains@.len() > 0, "state_model_missing_assert_never"@, r.id@);
}

proof fn lemma_variant_kind(r: StateIntegrityReport)
    ensures
        finding_kinds(variant_finding_part(r)) == (if r.missing_sites@.len() > 0 || r.missing_variants@.len() > 0 {
            seq!["state_model_missing_variant_coverage"@]
        } else {
            Seq::<Text>::empty()
        }),
        forall|i: int| 0 <= i < variant_finding_part(r).len() ==> (#[trigger] variant_finding_part(r)[i]).2 == r.id@,
{
    lemma_part_kind(
        variant_finding_part(r),
        r.missing_sites@.len() > 0 || r.missing_variants@.len() > 0,
        "state_model_missing_variant_coverage"@,
        r.id@,
    );
}

proof fn lemma_transition_kind(r: StateIntegrityReport)
    ensures
        finding_kinds(transition_sites_finding_part(r)) == (if r.transition_sites_supported && r.transition_sites@.len() == 0 {
            seq!["state_model_missing_transition_sites"@]
        } else {
            Seq::<Text>::empty()
        }),
        forall|i: int|
            0 <= i < transition_sites_finding_part(r).len() ==> (#[trigger] transition_sites_finding_part(r)[i]).2 == r.id@,
{
    lemma_part_kind(
        transition_sites_finding_part(r),
        r.transition_sites_supported && r.transition_sites@.len() == 0,
        "state_model_missing_transition_sites"@,
        r.id@,
    );
}

proof fn lemma_gap_kind(r: StateIntegrityReport)
    ensures
        finding_kinds(gap_finding_part(r)) == (if r.transition_gap_sites@.len() > 0 || r.missing_transition_variants@.len() > 0 {
            seq!["state_model_transition_coverage_gap"@]
        } else {
            Seq::<Text>::empty()
        }),
        forall|i: int| 0 <= i < gap_finding_part(r).len() ==> (#[trigger] gap_finding_part(r)[i]).2 == r.id@,
{
    lemma_part_kind(
        gap_finding_part(r),
        r.transition_gap_sites@.len() > 0 || r.missing_transition_variants@.len() > 0,
        "state_model_transition_coverage_gap"@,
        r.id@,
    );
}

proof fn lemma_burden_kind(r: StateIntegrityReport)
    ensures
        finding_kinds(burden_finding_part(r)) == (if r.context_burden >= 8 {
            seq!["state_model_high_context_burden"@]
        } else {
            Seq::<Text>::empty()
        }),
        forall|i: int| 0 <= i < burden_finding_part(r).len() ==> (#[trigger] burden_finding_part(r)[i]).2 == r.id@,
{
    lemma_part_kind(burden_finding_part(r), r.context_burden >= 8, "state_model_high_context_burden"@, r.id@);
}

/// A report's findings carry the kinds of `state_finding_kinds`, in that
/// order, and each names the report.
pub proof fn lemma_state_finding_kinds(r: StateIntegrityReport)
    ensures
        finding_kinds(state_report_findings(r)) == state_finding_kinds(r),
        forall|i: int| 0 <= i < state_report_findings(r).len() ==> (#[trigger] state_report_findings(r)[i]).2 == r.id@,
{
    if r.domain_symbol_names@.len() > 0 {
        let (p0, p1, p2, p3, p4, p5) = (
            switch_finding_part(r),
            assert_never_finding_part(r),
            variant_finding_part(r),
            transition_sites_finding_part(r),
            gap_finding_part(r),
            burden_finding_part(r),
        );
        lemma_switch_kind(r);
        lemma_assert_never_kind(r);
        lemma_variant_kind(r);
        lemma_transition_kind(r);
        lemma_gap_kind(r);
        lemma_burden_kind(r);
        lemma_kinds_concat(p0, p1, r.id@);
        lemma_kinds_concat(p0 + p1, p2, r.id@);
        lemma_kinds_concat(p0 + p1 + p2, p3, r.id@);
        lemma_kinds_concat(p0 + p1 + p2 + p3, p4, r.id@);
        lemma_kinds_concat(p0 + p1 + p2 + p3 + p4, p5, r.id@);
    } else {
        assert(finding_kinds(state_report_findings(r)) =~= seq!["state_model_unmapped"@]);
    }
}

/// The findings of every report, report by report.
pub open spec fn state_findings_spec(reports: Seq<StateIntegrityReport>) -> Seq<FindingView>
    decreases reports.len(),
{
    if reports.len() == 0 {
        Seq::empty()
    } else {
        state_findings_spec(reports.drop_last()) + state_report_findings(reports.last())
    }
}

/// The kinds of every report's findings, report by report.
pub open spec fn state_kinds_spec(reports: Seq<StateIntegrityReport>) -> Seq<Text>
    decreases reports.len(),
{
    if reports.len() == 0 {
        Seq::empty()
    } else {
        state_kinds_spec(reports.drop_last()) + state_finding_kinds(reports.last())
    }
}

/// The findings of the reports carry, report by report, the kinds of
/// `state_finding_kinds`.
pub proof fn lemma_state_kinds(reports: Seq<StateIntegrityReport>)
    ensures
        finding_kinds(state_findings_spec(reports)) == state_kinds_spec(reports),
    decreases reports.len(),
{
    if reports.len() > 0 {
        lemma_state_kinds(reports.drop_last());
        lemma_state_finding_kinds(reports.last());
        let a = state_findings_spec(reports.drop_last());
        let b = state_report_findings(reports.last());
        assert(finding_kinds(a + b) =~= finding_kinds(a) + finding_kinds(b));
    }
}

/// A finding with the report's id and files.
fn report_finding_of(
    r: &StateIntegrityReport,
    kind: &str,
    severity: FindingSeverity,
    summary: String,
    evidence: Vec<String>,
) -> (f: SemanticFinding)
    ensures
        f@ == report_finding(*r, kind@, severity, summary@, evidence.deep_view()),
{
    let f = SemanticFinding {
        kind: kind.to_string(),
        severity,
        concept_id: r.id.clone(),
        summary,
        files: crate::clone_groups::copy_strings(&r.files),
        evidence,
    };
    assert(f.files.deep_view() =~= r.files.deep_view());
    f
}

/// "State model '<id>'" followed by `rest`.
fn headed(id: &str, rest: &str) -> (s: String)
    ensures
        s@ == model_head(id@) + rest@,
{
    let mut s = "State model '".to_string();
    s.append(id);
    s.append("'");
    s.append(rest);
    s
}

/// Appends the decimal form of `n`, then `b`.
fn append_number(s: &mut String, n: u64, b: &str)
    ensures
        final(s)@ == old(s)@ + dec(n as nat) + b@,
{
    let d = decimal(n);
    s.append(d.as_str());
    s.append(b);
}

/// Appends `a`, the decimal form of `n`, and `b`.
fn append_count(s: &mut String, a: &str, n: u64, b: &str)
    ensures
        final(s)@ == old(s)@ + a@ + dec(n as nat) + b@,
{
    s.append(a);
    let d = decimal(n);
    s.append(d.as_str());
    s.append(b);
}

/// A single finding as a one-element list.
fn one_finding(f: SemanticFinding) -> (out: Vec<SemanticFinding>)
    ensures
        findings_view(out@) == seq![f@],
{
    let out = vec![f];
    assert(findings_view(out@) =~= seq![f@]);
    out
}

/// The missing-switch finding (see `switch_finding_part`).
fn switch_findings(r: &StateIntegrityReport) -> (out: Vec<SemanticFinding>)
    ensures
        findings_view(out@) == switch_finding_part(*r),
{
    if r.missing_exhaustive_switch_domains.len() == 0 {
        let none: Vec<SemanticFinding> = Vec::new();
        assert(findings_view(none@) =~= Seq::<FindingView>::empty());
        return none;
    }
    let mut summary = headed(r.id.as_str(), " is missing switch-based coverage for ");
    append_number(&mut summary, r.missing_exhaustive_switch_domains.len() as u64, " domain(s)");
    let ev = crate::clone_groups::copy_strings(&r.missing_exhaustive_switch_domains);
    assert(ev.deep_view() =~= r.missing_exhaustive_switch_domains.deep_view());
    let f = report_finding_of(r, "state_model_missing_exhaustive_switch", FindingSeverity::High, summary, ev);
    assert(f@ == switch_finding_part(*r)[0]);
    one_finding(f)
}

/// The missing-assertNever finding (see `assert_never_finding_part`).
fn assert_never_findings(r: &StateIntegrityReport) -> (out: Vec<SemanticFinding>)
    ensures
        findings_view(out@) == assert_never_finding_part(*r),
{
    if r.missing_assert_never_domains.len() == 0 {
        let none: Vec<SemanticFinding> = Vec::new();
        assert(findings_view(none@) =~= Seq::<FindingView>::empty());
        return none;
    }
    let mut summary = headed(r.id.as_str(), " is missing assertNever-backed default handling for ");
    append_number(&mut summary, r.missing_assert_never_domains.len() as u64, " domain(s)");
    let ev = crate::clone_groups::copy_strings(&r.missing_assert_never_domains);
    assert(ev.deep_view() =~= r.missing_assert_never_domains.deep_view());
    let f = report_finding_of(r, "state_model_missing_assert_never", FindingSeverity::Medium, summary, ev);
    assert(f@ == assert_never_finding_part(*r)[0]);
    one_finding(f)
}

/// The variant-coverage finding (see `variant_finding_part`).
fn variant_findings(r: &StateIntegrityReport) -> (out: Vec<SemanticFinding>)
    ensures
        findings_view(out@) == variant_finding_part(*r),
{
    if r.missing_sites.len() == 0 && r.missing_variants.len() == 0 {
        let none: Vec<SemanticFinding> = Vec::new();
        assert(findings_view(none@) =~= Seq::<FindingView>::empty());
        return none;
    }
    let id = r.id.as_str();
    let sites_n = r.missing_sites.len() as u64;
    let variants_n = r.missing_variants.len() as u64;
    let summary = if sites_n == 0 {
        let mut t = headed(id, " is missing coverage for ");
        append_number(&mut t, variants_n, " variant(s)");
        t
    } else if variants_n == 0 {
        let mut t = headed(id, " is missing ");
        append_number(&mut t, sites_n, " required state update site(s)");
        t
    } else {
        let mut t = headed(id, " is missing ");
        append_number(&mut t, sites_n, " required state update site(s) and ");
        append_number(&mut t, variants_n, " variant(s)");
        t
    };
    assert(summary@ =~= variant_coverage_summary(r.id@, r.missing_sites@.len(), r.missing_variants@.len()));
    let mut ev: Vec<String> = Vec::new();
    let mut k: usize = 0;
    while k < r.missing_sites.len()
        invariant
            k <= r.missing_sites@.len(),
            ev.deep_view() == r.missing_sites@.take(k as int).map_values(
                |x: ObligationSite| x.path@ + " ["@ + x.detail@ + "]"@,
            ),
        decreases r.missing_sites@.len() - k,
    {
        let mut line = r.missing_sites[k].path.clone();
        line.append(" [");
        line.append(r.missing_sites[k].detail.as_str());
        line.append("]");
        push_line(&mut ev, line);
        assert(ev.deep_view() =~= r.missing_sites@.take(k + 1).map_values(
            |x: ObligationSite| x.path@ + " ["@ + x.detail@ + "]"@,
        ));
        k = k + 1;
    }
    assert(r.missing_sites@.take(r.missing_sites@.len() as int) =~= r.missing_sites@);
    let ghost sites_ev = ev.deep_view();
    let mut k: usize = 0;
    while k < r.missing_variants.len()
        invariant
            k <= r.missing_variants@.len(),
            ev.deep_view() == sites_ev + r.missing_variants.deep_view().take(k as int).map_values(
                |v: Text| "missing variant '"@ + v + "'"@,
            ),
        decreases r.missing_variants@.len() - k,
    {
        let mut line = "missing variant '".to_string();
        line.append(r.missing_variants[k].as_str());
        line.append("'");
        push_line(&mut ev, line);
        assert(ev.deep_view() =~= sites_ev + r.missing_variants.deep_view().take(k + 1).map_values(
            |v: Text| "missing variant '"@ + v + "'"@,
        ));
        k = k + 1;
    }
    assert(r.missing_variants.deep_view().take(r.missing_variants@.len() as int) =~= r.missing_variants.deep_view());
    let severity = if r.missing_variants.len() == 0 {
        FindingSeverity::Medium
    } else {
        FindingSeverity::High
    };
    let f = report_finding_of(r, "state_model_missing_variant_coverage", severity, summary, ev);
    assert(f@ == variant_finding_part(*r)[0]);
    one_finding(f)
}

/// The missing-transition-sites finding (see `transition_sites_finding_part`).
fn transition_sites_findings(r: &StateIntegrityReport) -> (out: Vec<SemanticFinding>)
    ensures
        findings_view(out@) == transition_sites_finding_part(*r),
{
    if !(r.transition_sites_supported && r.transition_sites.len() == 0) {
        let none: Vec<SemanticFinding> = Vec::new();
        assert(findings_view(none@) =~= Seq::<FindingView>::empty());
        return none;
    }
    let summary = headed(r.id.as_str(), " has no explicit transition sites under its configured roots");
    let ev = crate::clone_groups::copy_strings(&r.roots);
    assert(ev.deep_view() =~= r.roots.deep_view());
    let f = report_finding_of(r, "state_model_missing_transition_sites", FindingSeverity::Medium, summary, ev);
    assert(f@ == transition_sites_finding_part(*r)[0]);
    one_finding(f)
}

/// The transition-gap finding (see `gap_finding_part`).
fn gap_findings(r: &StateIntegrityReport) -> (out: Vec<SemanticFinding>)
    ensures
        findings_view(out@) == gap_finding_part(*r),
{
    if r.transition_gap_sites.len() == 0 && r.missing_transition_variants.len() == 0 {
        let none: Vec<SemanticFinding> = Vec::new();
        assert(findings_view(none@) =~= Seq::<FindingView>::empty());
        return none;
    }
    let id = r.id.as_str();
    let gaps_n = r.transition_gap_sites.len() as u64;
    let variants_n = r.missing_transition_variants.len() as u64;
    let summary = if gaps_n == 0 {
        let mut t = headed(id, " is missing explicit transition coverage for ");
        append_number(&mut t, variants_n, " source variant(s)");
        t
    } else if variants_n == 0 {
        let mut t = headed(id, " has ");
        append_number(&mut t, gaps_n, " transition branch(es) without an explicit next-state mapping");
        t
    } else {
        let mut t = headed(id, " has ");
        append_number(&mut t, gaps_n, " transition branch(es) without an explicit next-state mapping and ");
        append_number(&mut t, variants_n, " uncovered source variant(s)");
        t
    };
    assert(summary@ =~= transition_coverage_summary(
        r.id@,
        r.transition_gap_sites@.len(),
        r.missing_transition_variants@.len(),
    ));
    let mut ev: Vec<String> = Vec::new();
    let ghost gv = transition_views(r.transition_gap_sites@);
    let mut k: usize = 0;
    while k < r.transition_gap_sites.len()
        invariant
            gv == transition_views(r.transition_gap_sites@),
            k <= gv.len(),
            ev.deep_view() == gv.take(k as int).map_values(|t: TransitionView| gap_line(t)),
        decreases gv.len() - k,
    {
        let t = &r.transition_gap_sites[k];
        let mut line = t.path.clone();
        append_count(&mut line, ":", t.line as u64, " [");
        match &t.source_variant {
            Some(v) => line.append(v.as_str()),
            None => line.append("unknown"),
        }
        line.append("]");
        assert(line@ =~= gap_line(gv[k as int]));
        push_line(&mut ev, line);
        assert(ev.deep_view() =~= gv.take(k + 1).map_values(|t: TransitionView| gap_line(t)));
        k = k + 1;
    }
    assert(gv.take(gv.len() as int) =~= gv);
    let ghost gaps_ev = ev.deep_view();
    let mut k: usize = 0;
    while k < r.missing_transition_variants.len()
        invariant
            k <= r.missing_transition_variants@.len(),
            ev.deep_view() == gaps_ev + r.missing_transition_variants.deep_view().take(k as int).map_values(
                |v: Text| "missing transition source '"@ + v + "'"@,
            ),
        decreases r.missing_transition_variants@.len() - k,
    {
        let mut line = "missing transition source '".to_string();
        line.append(r.missing_transition_variants[k].as_str());
        line.append("'");
        push_line(&mut ev, line);
        assert(ev.deep_view() =~= gaps_ev + r.missing_transition_variants.deep_view().take(k + 1).map_values(
            |v: Text| "missing transition source '"@ + v + "'"@,
        ));
        k = k + 1;
    }
    assert(r.missing_transition_variants.deep_view().take(r.missing_transition_variants@.len() as int)
        =~= r.missing_transition_variants.deep_view());
    let f = report_finding_of(r, "state_model_transition_coverage_gap", FindingSeverity::High, summary, ev);
    assert(f@ == gap_finding_part(*r)[0]);
    one_finding(f)
}

/// The high-context-burden finding (see `burden_finding_part`).
fn burden_findings(r: &StateIntegrityReport) -> (out: Vec<SemanticFinding>)
    ensures
        findings_view(out@) == burden_finding_part(*r),
{
    if r.context_burden < 8 {
        let none: Vec<SemanticFinding> = Vec::new();
        assert(findings_view(none@) =~= Seq::<FindingView>::empty());
        return none;
    }
    let mut summary = headed(r.id.as_str(), " has high static context burden (");
    append_number(&mut summary, r.context_burden as u64, ")");
    let ev = crate::clone_groups::copy_strings(&r.domain_symbol_names);
    assert(ev.deep_view() =~= r.domain_symbol_names.deep_view());
    let f = report_finding_of(r, "state_model_high_context_burden", FindingSeverity::Medium, summary, ev);
    assert(f@ == burden_finding_part(*r)[0]);
    one_finding(f)
}

/// Appends `more` to `out`.
fn append_findings(out: &mut Vec<SemanticFinding>, more: Vec<SemanticFinding>)
    ensures
        findings_view(final(out)@) == findings_view(old(out)@) + findings_view(more@),
{
    let mut more = more;
    let ghost (a, b) = (out@, more@);
    out.append(&mut more);
    assert(findings_view(out@) =~= findings_view(a) + findings_view(b));
}

/// The findings of one report (see `state_report_findings`).
fn report_findings(r: &StateIntegrityReport) -> (out: Vec<SemanticFinding>)
    ensures
        findings_view(out@) == state_report_findings(*r),
{
    if r.domain_symbol_names.len() == 0 {
        let summary = headed(r.id.as_str(), " has no matching closed-domain coverage under its configured roots");
        let ev = crate::clone_groups::copy_strings(&r.roots);
        assert(ev.deep_view() =~= r.roots.deep_view());
        let f = report_finding_of(r, "state_model_unmapped", FindingSeverity::Medium, summary, ev);
        return one_finding(f);
    }
    let mut out = switch_findings(r);
    append_findings(&mut out, assert_never_findings(r));
    append_findings(&mut out, variant_findings(r));
    append_findings(&mut out, transition_sites_findings(r));
    append_findings(&mut out, gap_findings(r));
    append_findings(&mut out, burden_findings(r));
    out
}

/// The findings of every state report (see `state_report_findings`).
pub fn build_state_integrity_findings(reports: &Vec<StateIntegrityReport>) -> (r: Vec<SemanticFinding>)
    ensures
        findings_view(r@) == state_findings_spec(reports@),
        finding_kinds(findings_view(r@)) == state_kinds_spec(reports@),
{
    proof {
        lemma_state_kinds(reports@);
    }
    let mut r: Vec<SemanticFinding> = Vec::new();
    let mut i: usize = 0;
    assert(reports@.take(0) =~= Seq::<StateIntegrityReport>::empty());
    while i < reports.len()
        invariant
            i <= reports@.len(),
            findings_view(r@) == state_findings_spec(reports@.take(i as int)),
        decreases reports@.len() - i,
    {
        assert(reports@.take(i + 1).drop_last() =~= reports@.take(i as int));
        assert(reports@.take(i + 1).last() == reports@[i as int]);
        let mut more = report_findings(&reports[i]);
        let ghost (r0, m0) = (r@, more@);
        r.append(&mut more);
        assert(findings_view(r@) =~= findings_view(r0) + findings_view(m0));
        i = i + 1;
    }
    assert(reports@.take(reports@.len() as int) =~= reports@);
    r
}

/// A changed file falls under the model's roots or among its report's files.
pub open spec fn in_changed_scope(m: StateModelRule, r: StateIntegrityReport, changed: Seq<Text>) -> bool {
    &&& changed.len() > 0
    &&& exists|i: int|
        0 <= i < changed.len() && (roots_match(m.roots.deep_view(), #[trigger] changed[i]) || r.files.deep_view().contains(
            changed[i],
        ))
}

/// Whether a changed file falls under the model's roots or among its report's files.
pub fn state_model_in_changed_scope(model: &StateModelRule, report: &StateIntegrityReport, changed: &Vec<String>) -> (b:
    bool)
    ensures
        b == in_changed_scope(*model, *report, changed.deep_view()),
{
    if changed.len() == 0 {
        return false;
    }
    let mut i: usize = 0;
    while i < changed.len()
        invariant
            i <= changed@.len(),
            forall|k: int|
                0 <= k < i ==> !(roots_match(model.roots.deep_view(), #[trigger] changed.deep_view()[k])
                    || report.files.deep_view().contains(changed.deep_view()[k])),
        decreases changed@.len() - i,
    {
        if roots_match_path(&model.roots, changed[i].as_str()) || crate::order::texts_contain(
            &report.files,
            changed[i].as_str(),
        ) {
            assert(roots_match(model.roots.deep_view(), changed.deep_view()[i as int])
                || report.files.deep_view().contains(changed.deep_view()[i as int]));
            return true;
        }
        i = i + 1;
    }
    false
}

impl Ranked for StateIntegrityReport {
    /// Least explicit first, then heavier context burden, then id.
    open spec fn ranks_before(self, other: Self) -> bool {
        ||| self.explicitness_score_0_10000 < other.explicitness_score_0_10000
        ||| (self.explicitness_score_0_10000 == other.explicitness_score_0_10000 && self.context_burden
            > other.context_burden)
        ||| (self.explicitness_score_0_10000 == other.explicitness_score_0_10000 && self.context_burden
            == other.context_burden && lex_lt(self.id@, other.id@))
    }

    fn is_ranked_before(&self, other: &Self) -> (r: bool) {
        if self.explicitness_score_0_10000 != other.explicitness_score_0_10000 {
            return self.explicitness_score_0_10000 < other.explicitness_score_0_10000;
        }
        if self.context_burden != other.context_burden {
            return self.context_burden > other.context_burden;
        }
        text_less(self.id.as_str(), other.id.as_str())
    }

    proof fn lemma_ranking_irreflexive(a: Self) {
        crate::order::lemma_lex_irreflexive(a.id@);
    }

    proof fn lemma_ranking_transitive(a: Self, b: Self, c: Self) {
        if lex_lt(a.id@, b.id@) && lex_lt(b.id@, c.id@) {
            crate::order::lemma_lex_transitive(a.id@, b.id@, c.id@);
        }
    }

    proof fn lemma_ranking_connected(a: Self, b: Self, c: Self) {
        crate::order::lemma_lex_total(a.id@, b.id@);
        crate::order::lemma_lex_total(b.id@, c.id@);
        if lex_lt(b.id@, a.id@) && lex_lt(c.id@, b.id@) {
            crate::order::lemma_lex_transitive(c.id@, b.id@, a.id@);
            crate::order::lemma_lex_asymmetric(c.id@, a.id@);
        }
        if lex_lt(b.id@, a.id@) && b.id@ == c.id@ {
            crate::order::lemma_lex_asymmetric(b.id@, a.id@);
        }
        if a.id@ == b.id@ && lex_lt(c.id@, b.id@) {
            crate::order::lemma_lex_asymmetric(c.id@, b.id@);
        }
    }
}

/// The facts and obligations are small enough for every report: burdens and
/// counts fit the machine's integers.
pub open spec fn state_inputs_fit(semantic: SemanticSnapshot, obligations: Seq<ObligationReport>) -> bool {
    &&& burden_total(obligations) + semantic.transition_sites@.len() <= usize::MAX
    &&& required_total(obligations) <= u32::MAX
    &&& semantic.closed_domains@.len() + semantic.closed_domain_sites@.len() <= u32::MAX
    &&& semantic.transition_sites@.len() <= u32::MAX
}

/// The report is kept under the scope: every report for all models, only
/// those a changed file touches for changed scope.
pub open spec fn kept_in_scope(
    m: StateModelRule,
    r: StateIntegrityReport,
    scope: StateScope,
    changed: Seq<Text>,
) -> bool {
    scope == StateScope::All || in_changed_scope(m, r, changed)
}

/// The reports kept under the scope, in model order.
pub open spec fn kept_reports(
    models: Seq<StateModelRule>,
    built: Seq<StateIntegrityReport>,
    scope: StateScope,
    changed: Seq<Text>,
) -> Seq<StateIntegrityReport>
    decreases models.len(),
{
    if models.len() == 0 || built.len() != models.len() {
        Seq::empty()
    } else {
        let prev = kept_reports(models.drop_last(), built.drop_last(), scope, changed);
        if kept_in_scope(models.last(), built.last(), scope, changed) {
            prev.push(built.last())
        } else {
            prev
        }
    }
}

/// Under the whole scope every report is kept.
pub proof fn lemma_all_reports_kept(models: Seq<StateModelRule>, built: Seq<StateIntegrityReport>, changed: Seq<Text>)
    requires
        built.len() == models.len(),
    ensures
        kept_reports(models, built, StateScope::All, changed) == built,
    decreases models.len(),
{
    if models.len() > 0 {
        lemma_all_reports_kept(models.drop_last(), built.drop_last(), changed);
        assert(built.drop_last().push(built.last()) =~= built);
    } else {
        assert(built =~= Seq::<StateIntegrityReport>::empty());
    }
}

/// `a` may stand before `b`: less explicit first, then heavier context
/// burden, then id in ascending order.
pub open spec fn state_order(a: StateIntegrityReport, b: StateIntegrityReport) -> bool {
    ||| a.explicitness_score_0_10000 < b.explicitness_score_0_10000
    ||| (a.explicitness_score_0_10000 == b.explicitness_score_0_10000 && a.context_burden > b.context_burden)
    ||| (a.explicitness_score_0_10000 == b.explicitness_score_0_10000 && a.context_burden == b.context_burden
        && !lex_lt(b.id@, a.id@))
}

/// The state-integrity report of every configured model kept under the
/// scope, least explicit first, then heavier context burden, then id.
pub fn build_state_integrity_reports(
    config: &RulesConfig,
    semantic: &SemanticSnapshot,
    obligations: &Vec<ObligationReport>,
    scope: StateScope,
    changed_files: &Vec<String>,
) -> (r: Vec<StateIntegrityReport>)
    requires
        state_inputs_fit(*semantic, obligations@),
    ensures
        ranked_order(r@),
        exists|built: Seq<StateIntegrityReport>|
            #![trigger built.len()]
            {
                &&& built.len() == config.state_model@.len()
                &&& forall|j: int|
                    0 <= j < built.len() ==> describes_state_report(
                        #[trigger] built[j],
                        config.state_model@[j],
                        *semantic,
                        obligations@,
                    )
                &&& r@.to_multiset() == kept_reports(
                    config.state_model@,
                    built,
                    scope,
                    changed_files.deep_view(),
                ).to_multiset()
                &&& crate::sorting::keeps_ties_in_order(
                    r@,
                    kept_reports(config.state_model@, built, scope, changed_files.deep_view()),
                )
            },
        forall|i: int, j: int| 0 <= i < j < r@.len() ==> state_order(#[trigger] r@[i], #[trigger] r@[j]),
        scope == StateScope::All ==> r@.len() == config.state_model@.len(),
{
    let ghost models = config.state_model@;
    let ghost ch = changed_files.deep_view();
    let ghost mut built: Seq<StateIntegrityReport> = Seq::empty();
    let mut reports: Vec<StateIntegrityReport> = Vec::new();
    let mut i: usize = 0;
    assert(models.take(0) =~= Seq::<StateModelRule>::empty());
    while i < config.state_model.len()
        invariant
            models == config.state_model@,
            ch == changed_files.deep_view(),
            state_inputs_fit(*semantic, obligations@),
            i <= models.len(),
            built.len() == i,
            forall|j: int|
                0 <= j < i ==> describes_state_report(#[trigger] built[j], models[j], *semantic, obligations@),
            reports@ == kept_reports(models.take(i as int), built, scope, ch),
        decreases models.len() - i,
    {
        let model = &config.state_model[i];
        let report = build_state_integrity_report(model, semantic, obligations);
        let ghost old_built = built;
        proof {
            built = built.push(report);
            assert(models.take(i + 1).drop_last() =~= models.take(i as int));
            assert(models.take(i + 1).last() == models[i as int]);
            assert(built.drop_last() =~= old_built);
        }
        let keep = match scope {
            StateScope::All => true,
            StateScope::Changed => state_model_in_changed_scope(model, &report, changed_files),
        };
        if keep {
            reports.push(report);
        }
        i = i + 1;
    }
    assert(models.take(models.len() as int) =~= models);
    let ghost kept = reports@;
    let sorted = sort_ranked(reports);
    assert(built.len() == models.len());
    proof {
        if scope == StateScope::All {
            lemma_all_reports_kept(models, built, ch);
        }
        assert forall|i: int, j: int| 0 <= i < j < sorted@.len() implies state_order(#[trigger] sorted@[i], #[trigger] sorted@[j]) by {
            assert(!sorted@[j].ranks_before(sorted@[i]));
        }
    }
    sorted
}

/// The mean explicitness of the reports, rounded down; 10000 without reports.
pub open spec fn state_score_of(reports: Seq<StateIntegrityReport>) -> int {
    if reports.len() == 0 {
        10000
    } else {
        (explicitness_sum(reports) as int) / (reports.len() as int)
    }
}

/// The summed explicitness of the reports.
pub open spec fn explicitness_sum(reports: Seq<StateIntegrityReport>) -> nat
    decreases reports.len(),
{
    if reports.len() == 0 {
        0
    } else {
        explicitness_sum(reports.drop_last()) + reports.last().explicitness_score_0_10000 as nat
    }
}

/// The state-integrity score of a run (see `state_score_of`).
pub fn state_integrity_score_0_10000(reports: &Vec<StateIntegrityReport>) -> (r: u32)
    ensures
        r == state_score_of(reports@),
{
    if reports.len() == 0 {
        return 10000;
    }
    let mut total: u128 = 0;
    let mut i: usize = 0;
    assert(reports@.take(0) =~= Seq::<StateIntegrityReport>::empty());
    while i < reports.len()
        invariant
            i <= reports@.len(),
            total == explicitness_sum(reports@.take(i as int)),
            total <= i * 0xffff_ffff,
        decreases reports@.len() - i,
    {
        assert(reports@.take(i + 1).drop_last() =~= reports@.take(i as int));
        total = total + reports[i].explicitness_score_0_10000 as u128;
        i = i + 1;
    }
    assert(reports@.take(reports@.len() as int) =~= reports@);
    let n = reports.len() as u128;
    proof {
        assert(total / n <= 0xffff_ffff) by (nonlinear_arith)
            requires
                total <= n * 0xffff_ffff,
                n >= 1,
        ;
    }
    (total / n) as u32
}

/// The ids of the models whose roots a changed file falls under, in
/// increasing order and without repeats.
pub open spec fn changed_model_ids(models: Seq<StateModelRule>, changed: Seq<Text>) -> Set<Text> {
    Set::new(
        |id: Text|
            exists|i: int|
                0 <= i < models.len() && (#[trigger] models[i]).id@ == id && exists|k: int|
                    0 <= k < changed.len() && roots_match(models[i].roots.deep_view(), #[trigger] changed[k]),
    )
}

/// The ids of the state models that a changed file falls under (see `changed_model_ids`).
pub fn changed_state_model_ids_from_files(config: &RulesConfig, changed_files: &Vec<String>) -> (r: Vec<String>)
    ensures
        r.deep_view() == sorted_set(changed_model_ids(config.state_model@, changed_files.deep_view())),
{
    let ghost models = config.state_model@;
    let ghost ch = changed_files.deep_view();
    let mut ids: Vec<String> = Vec::new();
    let mut i: usize = 0;
    assert(ids.deep_view().to_set() =~= Set::<Text>::empty());
    while i < config.state_model.len()
        invariant
            models == config.state_model@,
            ch == changed_files.deep_view(),
            i <= models.len(),
            ids.deep_view().to_set() == Set::new(
                |id: Text|
                    exists|q: int|
                        0 <= q < i && (#[trigger] models[q]).id@ == id && exists|k: int|
                            0 <= k < ch.len() && roots_match(models[q].roots.deep_view(), #[trigger] ch[k]),
            ),
        decreases models.len() - i,
    {
        let model = &config.state_model[i];
        let mut hit = false;
        let mut k: usize = 0;
        while k < changed_files.len()
            invariant
                k <= ch.len(),
                ch == changed_files.deep_view(),
                hit == exists|q: int| 0 <= q < k && roots_match(model.roots.deep_view(), #[trigger] ch[q]),
            decreases ch.len() - k,
        {
            assert(ch[k as int] == changed_files@[k as int]@);
            if roots_match_path(&model.roots, changed_files[k].as_str()) {
                hit = true;
                assert(roots_match(model.roots.deep_view(), ch[k as int]));
            }
            k = k + 1;
        }
        let ghost before = ids.deep_view();
        if hit {
            push_line(&mut ids, model.id.clone());
            proof {
                before.lemma_push_to_set_commute(model.id@);
            }
        }
        assert(ids.deep_view().to_set() =~= Set::new(
            |id: Text|
                exists|q: int|
                    0 <= q < i + 1 && (#[trigger] models[q]).id@ == id && exists|k: int|
                        0 <= k < ch.len() && roots_match(models[q].roots.deep_view(), #[trigger] ch[k]),
        )) by {
            assert(models[i as int] == *model);
        }
        i = i + 1;
    }
    sorted_set_of(&ids)
}

} // verus!
