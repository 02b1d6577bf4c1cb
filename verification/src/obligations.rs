//! Obligation reports: which sites a closed domain or contract requires, which
//! of them are present, and the findings and scores drawn from them.
use crate::obligations_contract::{build_contract_obligation, contract_obligation_due, is_contract_obligation};
use crate::obligations_domain::{
    build_domain_obligation, concept_domain_matches, domain_actionable, domain_in_scope, domain_is_in_scope,
    domain_missing, domain_related_to_change, domain_required, is_domain_obligation, zero_config_domain_is_actionable,
    zero_config_domain_is_related_to_changed_files,
};
use crate::order::{lemma_lex_asymmetric, lemma_lex_irreflexive, lemma_lex_total, lemma_lex_transitive, lex_lt, sorted_insert, strictly_sorted, text_less};
use crate::semantic::{ClosedDomain, ConceptRule, ContractRule, RulesConfig, SemanticSnapshot};
use crate::site_set::site_views;
use crate::sorting::{ranked_order, sort_ranked, Ranked};
use crate::text::{push_line, text_eq, Text};
use crate::{FindingSeverity, SemanticFinding};
use vstd::prelude::*;

verus! {

/// Which obligations a run considers.
#[derive(Debug, Clone, Copy, PartialEq, Eq, Structural)]
pub enum ObligationScope {
    All,
    Changed,
}

/// Whether an obligation comes from an explicit rule or was inferred.
#[derive(Debug, Clone, Copy, PartialEq, Eq, Structural)]
pub enum ObligationOrigin {
    Explicit,
    ZeroConfig,
}

/// How far an obligation can be trusted.
#[derive(Debug, Clone, Copy, PartialEq, Eq, Structural)]
pub enum ObligationTrustTier {
    Trusted,
    Watchpoint,
}

/// How confident the analysis is in an obligation.
#[derive(Debug, Clone, Copy, PartialEq, Eq, Structural)]
pub enum ObligationConfidence {
    High,
    Medium,
}

/// A place in the code that an obligation requires.
pub struct ObligationSite {
    pub path: String,
    pub kind: String,
    pub line: Option<u32>,
    pub detail: String,
}

/// A site as plain values: path, kind, line and detail.
pub type SiteView = (Text, Text, Option<u32>, Text);

impl View for ObligationSite {
    type V = SiteView;

    open spec fn view(&self) -> SiteView {
        (self.path@, self.kind@, self.line, self.detail@)
    }
}

/// An owned copy of a site.
pub fn copy_site(s: &ObligationSite) -> (r: ObligationSite)
    ensures
        r@ == s@,
{
    ObligationSite { path: s.path.clone(), kind: s.kind.clone(), line: s.line, detail: s.detail.clone() }
}

/// One obligation with its required, satisfied and missing sites.
pub struct ObligationReport {
    pub id: String,
    pub kind: String,
    pub concept_id: Option<String>,
    pub domain_symbol_name: Option<String>,
    pub origin: ObligationOrigin,
    pub trust_tier: ObligationTrustTier,
    pub confidence: ObligationConfidence,
    pub severity: FindingSeverity,
    pub score_0_10000: u32,
    pub summary: String,
    pub files: Vec<String>,
    pub required_sites: Vec<ObligationSite>,
    pub satisfied_sites: Vec<ObligationSite>,
    pub missing_sites: Vec<ObligationSite>,
    pub missing_variants: Vec<String>,
    pub context_burden: usize,
}

/// The concept an obligation belongs to: its concept, else its domain symbol,
/// else nothing.
pub open spec fn concept_of(o: ObligationReport) -> Text {
    match o.concept_id {
        Some(c) => c@,
        None => match o.domain_symbol_name {
            Some(d) => d@,
            None => Seq::empty(),
        },
    }
}

fn obligation_concept_id(o: &ObligationReport) -> (r: String)
    ensures
        r@ == concept_of(*o),
{
    match &o.concept_id {
        Some(c) => c.clone(),
        None => match &o.domain_symbol_name {
            Some(d) => d.clone(),
            None => String::new(),
        },
    }
}

/// The evidence line of a missing site: its path and, in brackets, its detail.
pub open spec fn site_evidence(s: ObligationSite) -> Text {
    s.path@ + " ["@ + s.detail@ + "]"@
}

/// The finding of an obligation with missing sites.
pub open spec fn is_obligation_finding(f: SemanticFinding, o: ObligationReport) -> bool {
    &&& f.kind@ == o.kind@
    &&& f.severity == o.severity
    &&& f.concept_id@ == concept_of(o)
    &&& f.summary@ == o.summary@
    &&& f.files@ == o.files@
    &&& f.evidence.deep_view() == o.missing_sites@.map_values(|s: ObligationSite| site_evidence(s))
}

/// Positions of the obligations that have missing sites.
pub open spec fn open_obligations(obligations: Seq<ObligationReport>) -> Seq<int>
    decreases obligations.len(),
{
    if obligations.len() == 0 {
        Seq::empty()
    } else {
        let prev = open_obligations(obligations.drop_last());
        if obligations.last().missing_sites@.len() > 0 {
            prev.push(obligations.len() - 1)
        } else {
            prev
        }
    }
}

fn missing_site_evidence(sites: &Vec<ObligationSite>) -> (r: Vec<String>)
    ensures
        r.deep_view() == sites@.map_values(|s: ObligationSite| site_evidence(s)),
{
    let ghost expected = sites@.map_values(|s: ObligationSite| site_evidence(s));
    let mut r: Vec<String> = Vec::new();
    let mut i: usize = 0;
    while i < sites.len()
        invariant
            expected == sites@.map_values(|s: ObligationSite| site_evidence(s)),
            i <= sites@.len(),
            r.deep_view() == expected.take(i as int),
        decreases sites@.len() - i,
    {
        let mut line = sites[i].path.clone();
        line.append(" [");
        line.append(sites[i].detail.as_str());
        line.append("]");
        push_line(&mut r, line);
        i = i + 1;
        assert(r.deep_view() =~= expected.take(i as int));
    }
    assert(expected.take(sites@.len() as int) =~= expected);
    r
}

/// One finding per obligation with missing sites, in obligation order.
pub fn build_obligation_findings(obligations: &Vec<ObligationReport>) -> (r: Vec<SemanticFinding>)
    ensures
        r@.len() == open_obligations(obligations@).len(),
        forall|k: int|
            0 <= k < r@.len() ==> is_obligation_finding(
                #[trigger] r@[k],
                obligations@[open_obligations(obligations@)[k]],
            ),
{
    let mut r: Vec<SemanticFinding> = Vec::new();
    let mut i: usize = 0;
    while i < obligations.len()
        invariant
            i <= obligations@.len(),
            r@.len() == open_obligations(obligations@.take(i as int)).len(),
            forall|k: int| 0 <= k < r@.len() ==> 0 <= #[trigger] open_obligations(obligations@.take(i as int))[k] < i,
            forall|k: int|
                0 <= k < r@.len() ==> is_obligation_finding(
                    #[trigger] r@[k],
                    obligations@[open_obligations(obligations@.take(i as int))[k]],
                ),
        decreases obligations@.len() - i,
    {
        let ghost prev = open_obligations(obligations@.take(i as int));
        assert(obligations@.take(i + 1).drop_last() =~= obligations@.take(i as int));
        let o = &obligations[i];
        if o.missing_sites.len() > 0 {
            let f = SemanticFinding {
                kind: o.kind.clone(),
                severity: o.severity,
                concept_id: obligation_concept_id(o),
                summary: o.summary.clone(),
                files: crate::clone_groups::copy_strings(&o.files),
                evidence: missing_site_evidence(&o.missing_sites),
            };
            r.push(f);
            assert(open_obligations(obligations@.take(i + 1)) == prev.push(i as int));
        } else {
            assert(open_obligations(obligations@.take(i + 1)) == prev);
        }
        i = i + 1;
    }
    assert(obligations@.take(obligations@.len() as int) =~= obligations@);
    r
}

/// The non-empty concepts of the obligations.
pub open spec fn obligation_concepts(obligations: Seq<ObligationReport>) -> Set<Text> {
    Set::new(|c: Text| c.len() > 0 && exists|i: int| 0 <= i < obligations.len() && concept_of(#[trigger] obligations[i]) == c)
}

/// The distinct non-empty concepts of the obligations, in increasing order.
pub fn changed_concepts_from_obligations(obligations: &Vec<ObligationReport>) -> (r: Vec<String>)
    ensures
        strictly_sorted(r.deep_view()),
        r.deep_view().to_set() == obligation_concepts(obligations@),
{
    let mut r: Vec<String> = Vec::new();
    let mut i: usize = 0;
    assert(r.deep_view().to_set() =~= obligation_concepts(obligations@.take(0)));
    while i < obligations.len()
        invariant
            i <= obligations@.len(),
            strictly_sorted(r.deep_view()),
            r.deep_view().to_set() == obligation_concepts(obligations@.take(i as int)),
        decreases obligations@.len() - i,
    {
        let c = obligation_concept_id(&obligations[i]);
        let ghost before = obligation_concepts(obligations@.take(i as int));
        let ghost after = obligation_concepts(obligations@.take(i + 1));
        assert forall|x: Text| before.contains(x) implies after.contains(x) by {
            let j = choose|j: int| 0 <= j < i && concept_of(#[trigger] obligations@.take(i as int)[j]) == x;
            assert(obligations@.take(i + 1)[j] == obligations@.take(i as int)[j]);
        }
        if crate::text::char_len(c.as_str()) > 0 {
            sorted_insert(&mut r, c.as_str());
            assert(obligations@.take(i + 1)[i as int] == obligations@[i as int]);
            assert(after =~= before.insert(c@)) by {
                assert forall|x: Text| after.contains(x) implies before.insert(c@).contains(x) by {
                    let j = choose|j: int| 0 <= j < i + 1 && concept_of(#[trigger] obligations@.take(i + 1)[j]) == x;
                    if j < i {
                        assert(obligations@.take(i as int)[j] == obligations@.take(i + 1)[j]);
                    }
                }
            }
        } else {
            assert(after =~= before) by {
                assert forall|x: Text| after.contains(x) implies before.contains(x) by {
                    let j = choose|j: int| 0 <= j < i + 1 && concept_of(#[trigger] obligations@.take(i + 1)[j]) == x;
                    if j < i {
                        assert(obligations@.take(i as int)[j] == obligations@.take(i + 1)[j]);
                    } else {
                        assert(obligations@.take(i + 1)[j] == obligations@[i as int]);
                    }
                }
            }
        }
        i = i + 1;
    }
    assert(obligations@.take(obligations@.len() as int) =~= obligations@);
    r
}

/// The number of required sites over all obligations.
pub open spec fn required_site_total(obligations: Seq<ObligationReport>) -> nat
    decreases obligations.len(),
{
    if obligations.len() == 0 {
        0
    } else {
        required_site_total(obligations.drop_last()) + obligations.last().required_sites@.len()
    }
}

/// The number of satisfied sites over all obligations.
pub open spec fn satisfied_site_total(obligations: Seq<ObligationReport>) -> nat
    decreases obligations.len(),
{
    if obligations.len() == 0 {
        0
    } else {
        satisfied_site_total(obligations.drop_last()) + obligations.last().satisfied_sites@.len()
    }
}

/// `part / whole` scaled by 10000 and rounded half away from zero, capped at
/// `u32::MAX`; 10000 when `whole` is zero.
pub open spec fn ratio_score(part: nat, whole: nat) -> int {
    if whole == 0 {
        10000
    } else {
        let q: int = ((20000 * part + whole) / (2 * whole)) as int;
        if q > u32::MAX { u32::MAX as int } else { q }
    }
}

/// `part / whole` scaled by 10000 and rounded half away from zero (see
/// `ratio_score`).
pub fn rounded_ratio_score(part: usize, whole: usize) -> (r: u32)
    ensures
        r == ratio_score(part as nat, whole as nat),
{
    if whole == 0 {
        return 10000;
    }
    let p = part as u128;
    let w = whole as u128;
    assert(p * 20000 <= 0xffff_ffff_ffff_ffffu128 * 20000) by (nonlinear_arith)
        requires
            p <= 0xffff_ffff_ffff_ffffu128,
    ;
    assert(w * 2 <= 0xffff_ffff_ffff_ffffu128 * 2);
    let q = (p * 20000 + w) / (w * 2);
    if q > u32::MAX as u128 {
        u32::MAX
    } else {
        q as u32
    }
}

/// Ratio scores never exceed 10000 while the part is within the whole.
pub proof fn lemma_ratio_score_bounded(part: nat, whole: nat)
    requires
        part <= whole,
    ensures
        0 <= ratio_score(part, whole) <= 10000,
        part == whole ==> ratio_score(part, whole) == 10000,
{
    if whole > 0 {
        let q = (20000 * part + whole) / (2 * whole);
        assert(q <= 10000) by (nonlinear_arith)
            requires
                q == (20000 * part + whole) / (2 * whole),
                part <= whole,
                whole > 0,
        {
            assert(20000 * part + whole < 2 * whole * 10001);
        }
        if part == whole {
            assert((20000 * whole + whole) / (2 * whole) == 10000) by (nonlinear_arith)
                requires
                    whole > 0,
            {
                assert(20000 * whole + whole == 10000 * (2 * whole) + whole);
            }
        }
    }
}

fn site_totals(obligations: &Vec<ObligationReport>) -> (r: (usize, usize))
    requires
        required_site_total(obligations@) <= usize::MAX,
        satisfied_site_total(obligations@) <= usize::MAX,
    ensures
        r.0 == satisfied_site_total(obligations@),
        r.1 == required_site_total(obligations@),
{
    let mut satisfied: usize = 0;
    let mut required: usize = 0;
    let mut i: usize = 0;
    while i < obligations.len()
        invariant
            i <= obligations@.len(),
            required_site_total(obligations@) <= usize::MAX,
            satisfied_site_total(obligations@) <= usize::MAX,
            required == required_site_total(obligations@.take(i as int)),
            satisfied == satisfied_site_total(obligations@.take(i as int)),
        decreases obligations@.len() - i,
    {
        assert(obligations@.take(i + 1).drop_last() =~= obligations@.take(i as int));
        proof {
            lemma_totals_prefix(obligations@, i + 1);
        }
        required = required + obligations[i].required_sites.len();
        satisfied = satisfied + obligations[i].satisfied_sites.len();
        i = i + 1;
    }
    assert(obligations@.take(obligations@.len() as int) =~= obligations@);
    (satisfied, required)
}

proof fn lemma_totals_prefix(obligations: Seq<ObligationReport>, k: int)
    requires
        0 <= k <= obligations.len(),
    ensures
        required_site_total(obligations.take(k)) <= required_site_total(obligations),
        satisfied_site_total(obligations.take(k)) <= satisfied_site_total(obligations),
    decreases obligations.len() - k,
{
    if k < obligations.len() {
        lemma_totals_prefix(obligations.drop_last(), k);
        assert(obligations.drop_last().take(k) =~= obligations.take(k));
    } else {
        assert(obligations.take(k) =~= obligations);
    }
}

/// The share of required sites that are satisfied, over all obligations,
/// scaled to 0..=10000 (10000 when nothing is required).
pub fn obligation_score_0_10000(obligations: &Vec<ObligationReport>) -> (r: u32)
    requires
        required_site_total(obligations@) <= usize::MAX,
        satisfied_site_total(obligations@) <= usize::MAX,
    ensures
        r == ratio_score(satisfied_site_total(obligations@), required_site_total(obligations@)),
{
    let (satisfied, required) = site_totals(obligations);
    rounded_ratio_score(satisfied, required)
}

/// The origin of an obligation: explicit when it has an explicit owner.
pub fn obligation_report_origin(has_explicit_owner: bool) -> (r: ObligationOrigin)
    ensures
        r == (if has_explicit_owner { ObligationOrigin::Explicit } else { ObligationOrigin::ZeroConfig }),
{
    if has_explicit_owner {
        ObligationOrigin::Explicit
    } else {
        ObligationOrigin::ZeroConfig
    }
}

/// Explicit obligations are trusted; inferred ones are watchpoints.
pub fn obligation_report_trust_tier(origin: ObligationOrigin) -> (r: ObligationTrustTier)
    ensures
        r == (if origin == ObligationOrigin::Explicit { ObligationTrustTier::Trusted } else { ObligationTrustTier::Watchpoint }),
{
    match origin {
        ObligationOrigin::Explicit => ObligationTrustTier::Trusted,
        ObligationOrigin::ZeroConfig => ObligationTrustTier::Watchpoint,
    }
}

/// Explicit obligations are held with high confidence; inferred ones with medium.
pub fn obligation_report_confidence(origin: ObligationOrigin) -> (r: ObligationConfidence)
    ensures
        r == (if origin == ObligationOrigin::Explicit { ObligationConfidence::High } else { ObligationConfidence::Medium }),
{
    match origin {
        ObligationOrigin::Explicit => ObligationConfidence::High,
        ObligationOrigin::ZeroConfig => ObligationConfidence::Medium,
    }
}

/// The severity of an obligation.
pub open spec fn obligation_severity(kind: Text, origin: ObligationOrigin, missing_variants: usize) -> FindingSeverity {
    if kind == "closed_domain_exhaustiveness"@ || missing_variants > 0 {
        FindingSeverity::High
    } else if origin == ObligationOrigin::Explicit {
        FindingSeverity::High
    } else {
        FindingSeverity::Medium
    }
}

/// The severity of an obligation (see `obligation_severity`).
pub fn obligation_report_severity(kind: &str, origin: ObligationOrigin, missing_variants: usize) -> (r: FindingSeverity)
    ensures
        r == obligation_severity(kind@, origin, missing_variants),
{
    if crate::text::text_eq(kind, "closed_domain_exhaustiveness") || missing_variants > 0 {
        FindingSeverity::High
    } else if origin == ObligationOrigin::Explicit {
        FindingSeverity::High
    } else {
        FindingSeverity::Medium
    }
}

/// The score of an obligation: a base of 6000 plus severity, origin and
/// missing-site bonuses, capped at 10000.
pub open spec fn obligation_score(severity: FindingSeverity, origin: ObligationOrigin, missing_site_count: usize) -> u32 {
    let severity_bonus: int = match severity {
        FindingSeverity::High => 1800,
        FindingSeverity::Medium => 1000,
        FindingSeverity::Low => 200,
    };
    let origin_bonus: int = match origin {
        ObligationOrigin::Explicit => 1600,
        ObligationOrigin::ZeroConfig => 600,
    };
    let sites: int = if missing_site_count < 3 { missing_site_count as int } else { 3 };
    let total = 6000 + severity_bonus + origin_bonus + sites * 500;
    if total > 10000 { 10000 } else { total as u32 }
}

/// The score of an obligation (see `obligation_score`).
pub fn obligation_report_score(severity: FindingSeverity, origin: ObligationOrigin, missing_site_count: usize) -> (r: u32)
    ensures
        r == obligation_score(severity, origin, missing_site_count),
{
    let severity_bonus: u32 = match severity {
        FindingSeverity::High => 1800,
        FindingSeverity::Medium => 1000,
        FindingSeverity::Low => 200,
    };
    let origin_bonus: u32 = match origin {
        ObligationOrigin::Explicit => 1600,
        ObligationOrigin::ZeroConfig => 600,
    };
    let sites: u32 = if missing_site_count < 3 {
        missing_site_count as u32
    } else {
        3
    };
    let total = 6000 + severity_bonus + origin_bonus + sites * 500;
    if total > 10000 {
        10000
    } else {
        total
    }
}

/// A missing text comes first; present texts compare in text order.
pub open spec fn opt_text_lt(a: Option<Text>, b: Option<Text>) -> bool {
    match (a, b) {
        (None, Some(_)) => true,
        (Some(x), Some(y)) => lex_lt(x, y),
        _ => false,
    }
}

/// The view of an optional string.
pub open spec fn opt_text(o: Option<String>) -> Option<Text> {
    match o {
        Some(s) => Some(s@),
        None => None,
    }
}

/// The key obligations are listed by: concept, domain symbol, id.
pub open spec fn obligation_key(o: ObligationReport) -> (Option<Text>, Option<Text>, Text) {
    (opt_text(o.concept_id), opt_text(o.domain_symbol_name), o.id@)
}

/// Keys compare by concept, then domain symbol, then id.
pub open spec fn key_lt(a: (Option<Text>, Option<Text>, Text), b: (Option<Text>, Option<Text>, Text)) -> bool {
    ||| opt_text_lt(a.0, b.0)
    ||| (a.0 == b.0 && opt_text_lt(a.1, b.1))
    ||| (a.0 == b.0 && a.1 == b.1 && lex_lt(a.2, b.2))
}

pub proof fn lemma_opt_text_lt_facts(a: Option<Text>, b: Option<Text>, c: Option<Text>)
    ensures
        !opt_text_lt(a, a),
        opt_text_lt(a, b) && opt_text_lt(b, c) ==> opt_text_lt(a, c),
        a == b || opt_text_lt(a, b) || opt_text_lt(b, a),
        opt_text_lt(a, b) ==> !opt_text_lt(b, a),
{
    if let Some(x) = a {
        lemma_lex_irreflexive(x);
        if let Some(y) = b {
            lemma_lex_total(x, y);
            if lex_lt(x, y) {
                lemma_lex_asymmetric(x, y);
            }
            if let Some(z) = c {
                if lex_lt(x, y) && lex_lt(y, z) {
                    lemma_lex_transitive(x, y, z);
                }
            }
        }
    }
}

proof fn lemma_key_lt_facts(
    a: (Option<Text>, Option<Text>, Text),
    b: (Option<Text>, Option<Text>, Text),
    c: (Option<Text>, Option<Text>, Text),
)
    ensures
        !key_lt(a, a),
        key_lt(a, b) && key_lt(b, c) ==> key_lt(a, c),
        a == b || key_lt(a, b) || key_lt(b, a),
        key_lt(a, b) ==> !key_lt(b, a),
{
    lemma_opt_text_lt_facts(a.0, b.0, c.0);
    lemma_opt_text_lt_facts(a.1, b.1, c.1);
    lemma_lex_irreflexive(a.2);
    lemma_lex_total(a.2, b.2);
    if lex_lt(a.2, b.2) {
        lemma_lex_asymmetric(a.2, b.2);
    }
    if lex_lt(a.2, b.2) && lex_lt(b.2, c.2) {
        lemma_lex_transitive(a.2, b.2, c.2);
    }
}

fn opt_less(a: &Option<String>, b: &Option<String>) -> (r: bool)
    ensures
        r == opt_text_lt(opt_text(*a), opt_text(*b)),
{
    match (a, b) {
        (None, Some(_)) => true,
        (Some(x), Some(y)) => text_less(x.as_str(), y.as_str()),
        _ => false,
    }
}

fn opt_equal(a: &Option<String>, b: &Option<String>) -> (r: bool)
    ensures
        r == (opt_text(*a) == opt_text(*b)),
{
    match (a, b) {
        (None, None) => true,
        (Some(x), Some(y)) => text_eq(x.as_str(), y.as_str()),
        _ => false,
    }
}

impl Ranked for ObligationReport {
    /// Obligations are listed by concept, then domain symbol, then id.
    open spec fn ranks_before(self, other: Self) -> bool {
        key_lt(obligation_key(self), obligation_key(other))
    }

    fn is_ranked_before(&self, other: &Self) -> (r: bool) {
        if !opt_equal(&self.concept_id, &other.concept_id) {
            return opt_less(&self.concept_id, &other.concept_id);
        }
        if !opt_equal(&self.domain_symbol_name, &other.domain_symbol_name) {
            return opt_less(&self.domain_symbol_name, &other.domain_symbol_name);
        }
        text_less(self.id.as_str(), other.id.as_str())
    }

    proof fn lemma_ranking_irreflexive(a: Self) {
        lemma_key_lt_facts(obligation_key(a), obligation_key(a), obligation_key(a));
    }

    proof fn lemma_ranking_transitive(a: Self, b: Self, c: Self) {
        lemma_key_lt_facts(obligation_key(a), obligation_key(b), obligation_key(c));
    }

    proof fn lemma_ranking_connected(a: Self, b: Self, c: Self) {
        let (ka, kb, kc) = (obligation_key(a), obligation_key(b), obligation_key(c));
        lemma_key_lt_facts(ka, kb, kc);
        lemma_key_lt_facts(kb, ka, kc);
        lemma_key_lt_facts(kb, kc, ka);
        lemma_key_lt_facts(kc, kb, ka);
        lemma_key_lt_facts(ka, kc, kb);
    }
}

/// A concept keeps its obligation on `d`: it governs `d`, the obligation is
/// in scope, and it requires some site.
pub open spec fn concept_entry_kept(
    c: ConceptRule,
    d: ClosedDomain,
    semantic: SemanticSnapshot,
    scope: ObligationScope,
    changed: Seq<Text>,
) -> bool {
    &&& concept_domain_matches(c, d)
    &&& domain_in_scope(c, d, semantic.closed_domain_sites@, scope, changed)
    &&& domain_required(semantic.closed_domains@, d, semantic.closed_domain_sites@, Some(c), changed) != Set::<SiteView>::empty()
}

/// An obligation to build: `(0, concept, domain)` for a concept's obligation
/// on a domain, `(1, contract, 0)` for a contract's, `(2, domain, 0)` for an
/// inferred one.
pub type PlanEntry = (int, int, int);

/// The obligations the concept at `ci` keeps, over the domains in order.
pub open spec fn concept_plan(
    ci: int,
    c: ConceptRule,
    ds: Seq<ClosedDomain>,
    semantic: SemanticSnapshot,
    scope: ObligationScope,
    changed: Seq<Text>,
) -> Seq<PlanEntry>
    decreases ds.len(),
{
    if ds.len() == 0 {
        Seq::empty()
    } else {
        let prev = concept_plan(ci, c, ds.drop_last(), semantic, scope, changed);
        if concept_entry_kept(c, ds.last(), semantic, scope, changed) {
            prev.push((0, ci, ds.len() - 1))
        } else {
            prev
        }
    }
}

/// The obligations the concepts keep, concept by concept.
pub open spec fn concepts_plan(cs: Seq<ConceptRule>, semantic: SemanticSnapshot, scope: ObligationScope, changed: Seq<Text>) -> Seq<
    PlanEntry,
>
    decreases cs.len(),
{
    if cs.len() == 0 {
        Seq::empty()
    } else {
        concepts_plan(cs.drop_last(), semantic, scope, changed) + concept_plan(
            cs.len() - 1,
            cs.last(),
            semantic.closed_domains@,
            semantic,
            scope,
            changed,
        )
    }
}

/// The contracts whose obligation is due, in order.
pub open spec fn contracts_plan(
    config: RulesConfig,
    ks: Seq<ContractRule>,
    semantic: SemanticSnapshot,
    scope: ObligationScope,
    changed: Seq<Text>,
) -> Seq<PlanEntry>
    decreases ks.len(),
{
    if ks.len() == 0 {
        Seq::empty()
    } else {
        let prev = contracts_plan(config, ks.drop_last(), semantic, scope, changed);
        if contract_obligation_due(config, ks.last(), semantic, scope, changed) {
            prev.push((1, ks.len() - 1, 0))
        } else {
            prev
        }
    }
}

/// Some concept governs a domain of this symbol.
pub open spec fn symbol_covered(cs: Seq<ConceptRule>, ds: Seq<ClosedDomain>, symbol: Text) -> bool {
    exists|i: int, j: int|
        0 <= i < cs.len() && 0 <= j < ds.len() && concept_domain_matches(#[trigger] cs[i], #[trigger] ds[j])
            && ds[j].symbol_name@ == symbol
}

/// An inferred obligation on `d` is kept: no concept governs a domain of its
/// symbol, it can be acted on, it relates to the change in changed scope,
/// and some site is missing.
pub open spec fn inferred_kept(config: RulesConfig, d: ClosedDomain, semantic: SemanticSnapshot, scope: ObligationScope, changed: Seq<Text>) -> bool {
    let ss = semantic.closed_domain_sites@;
    &&& !symbol_covered(config.concept@, semantic.closed_domains@, d.symbol_name@)
    &&& domain_actionable(semantic.closed_domains@, d, ss)
    &&& (scope == ObligationScope::Changed ==> domain_related_to_change(semantic.closed_domains@, d, ss, changed))
    &&& domain_missing(semantic.closed_domains@, d, ss, None, changed) != Set::<SiteView>::empty()
}

/// The inferred obligations kept, over the domains in order.
pub open spec fn inferred_plan(
    config: RulesConfig,
    ds: Seq<ClosedDomain>,
    semantic: SemanticSnapshot,
    scope: ObligationScope,
    changed: Seq<Text>,
) -> Seq<PlanEntry>
    decreases ds.len(),
{
    if ds.len() == 0 {
        Seq::empty()
    } else {
        let prev = inferred_plan(config, ds.drop_last(), semantic, scope, changed);
        if inferred_kept(config, ds.last(), semantic, scope, changed) {
            prev.push((2, ds.len() - 1, 0))
        } else {
            prev
        }
    }
}

/// Every obligation to build: the concepts', then the contracts', then the
/// inferred ones.
pub open spec fn obligation_plan(config: RulesConfig, semantic: SemanticSnapshot, scope: ObligationScope, changed: Seq<Text>) -> Seq<
    PlanEntry,
> {
    concepts_plan(config.concept@, semantic, scope, changed) + contracts_plan(
        config,
        config.contract@,
        semantic,
        scope,
        changed,
    ) + inferred_plan(config, semantic.closed_domains@, semantic, scope, changed)
}

/// `r` is the obligation the plan entry `e` describes.
pub open spec fn plans_report(
    r: ObligationReport,
    e: PlanEntry,
    config: RulesConfig,
    semantic: SemanticSnapshot,
    scope: ObligationScope,
    changed: Seq<Text>,
) -> bool {
    let ss = semantic.closed_domain_sites@;
    if e.0 == 0 {
        is_domain_obligation(semantic.closed_domains@, r, semantic.closed_domains@[e.2], ss, Some(config.concept@[e.1]), changed)
    } else if e.0 == 1 {
        is_contract_obligation(r, config, config.contract@[e.1], semantic, scope, changed)
    } else {
        is_domain_obligation(semantic.closed_domains@, r, semantic.closed_domains@[e.1], ss, None, changed)
    }
}

/// The reports describe the plan, entry by entry.
pub open spec fn reports_follow_plan(
    rs: Seq<ObligationReport>,
    plan: Seq<PlanEntry>,
    config: RulesConfig,
    semantic: SemanticSnapshot,
    scope: ObligationScope,
    changed: Seq<Text>,
) -> bool {
    &&& rs.len() == plan.len()
    &&& forall|k: int| 0 <= k < rs.len() ==> plans_report(#[trigger] rs[k], plan[k], config, semantic, scope, changed)
}

proof fn lemma_follow_push(
    rs: Seq<ObligationReport>,
    plan: Seq<PlanEntry>,
    r: ObligationReport,
    e: PlanEntry,
    config: RulesConfig,
    semantic: SemanticSnapshot,
    scope: ObligationScope,
    changed: Seq<Text>,
)
    requires
        reports_follow_plan(rs, plan, config, semantic, scope, changed),
        plans_report(r, e, config, semantic, scope, changed),
    ensures
        reports_follow_plan(rs.push(r), plan.push(e), config, semantic, scope, changed),
{
    assert forall|k: int| 0 <= k < rs.len() + 1 implies plans_report(
        #[trigger] rs.push(r)[k],
        plan.push(e)[k],
        config,
        semantic,
        scope,
        changed,
    ) by {
        if k < rs.len() {
            assert(rs.push(r)[k] == rs[k]);
            assert(plan.push(e)[k] == plan[k]);
        }
    }
}

fn collect_obligations(config: &RulesConfig, semantic: &SemanticSnapshot, scope: ObligationScope, changed: &Vec<String>) -> (r:
    Vec<ObligationReport>)
    ensures
        reports_follow_plan(
            r@,
            obligation_plan(*config, *semantic, scope, changed.deep_view()),
            *config,
            *semantic,
            scope,
            changed.deep_view(),
        ),
{
    let ghost ch = changed.deep_view();
    let ghost cs = config.concept@;
    let ghost ds = semantic.closed_domains@;
    let ghost ss = semantic.closed_domain_sites@;
    let mut out: Vec<ObligationReport> = Vec::new();
    let mut covered: Vec<String> = Vec::new();
    let mut i: usize = 0;
    assert(covered.deep_view().to_set() =~= Set::<Text>::empty());
    while i < config.concept.len()
        invariant
            i <= cs.len(),
            cs == config.concept@,
            ds == semantic.closed_domains@,
            ss == semantic.closed_domain_sites@,
            ch == changed.deep_view(),
            strictly_sorted(covered.deep_view()),
            covered.deep_view().to_set() == Set::new(
                |t: Text|
                    exists|a: int, b: int|
                        0 <= a < i && 0 <= b < ds.len() && concept_domain_matches(#[trigger] cs[a], #[trigger] ds[b])
                            && ds[b].symbol_name@ == t,
            ),
            reports_follow_plan(out@, concepts_plan(cs.take(i as int), *semantic, scope, ch), *config, *semantic, scope, ch),
        decreases cs.len() - i,
    {
        let concept = &config.concept[i];
        let targets = crate::concept_match::concept_targets(concept);
        let ghost head = out@;
        let ghost cov0 = covered.deep_view().to_set();
        let mut j: usize = 0;
        while j < semantic.closed_domains.len()
            invariant
                j <= ds.len(),
                i < cs.len(),
                cs == config.concept@,
                ds == semantic.closed_domains@,
                ss == semantic.closed_domain_sites@,
                ch == changed.deep_view(),
                *concept == cs[i as int],
                targets.deep_view() == crate::concept_match::concept_target_symbols(*concept),
                strictly_sorted(covered.deep_view()),
                covered.deep_view().to_set() == cov0 + Set::new(
                    |t: Text| exists|b: int| 0 <= b < j && concept_domain_matches(*concept, #[trigger] ds[b]) && ds[b].symbol_name@ == t,
                ),
                reports_follow_plan(
                    out@,
                    concepts_plan(cs.take(i as int), *semantic, scope, ch) + concept_plan(
                        i as int,
                        *concept,
                        ds.take(j as int),
                        *semantic,
                        scope,
                        ch,
                    ),
                    *config,
                    *semantic,
                    scope,
                    ch,
                ),
            decreases ds.len() - j,
        {
            let d = &semantic.closed_domains[j];
            let ghost prefix = concepts_plan(cs.take(i as int), *semantic, scope, ch);
            assert(ds.take(j as int + 1).drop_last() =~= ds.take(j as int));
            assert(ds.take(j as int + 1).last() == *d);
            if crate::concept_match::symbol_matches_targets(d.symbol_name.as_str(), &targets) {
                sorted_insert(&mut covered, d.symbol_name.as_str());
                if domain_is_in_scope(concept, d, semantic, scope, changed) {
                    let report = build_domain_obligation(&semantic.closed_domains, d, &semantic.closed_domain_sites, Some(concept), changed);
                    if report.context_burden > 0 {
                        assert(domain_required(semantic.closed_domains@, *d, ss, Some(*concept), ch) != Set::<SiteView>::empty()) by {
                            assert(crate::site_set::site_views(report.required_sites@).to_set().contains(
                                crate::site_set::site_views(report.required_sites@)[0],
                            ));
                        }
                        proof {
                            lemma_follow_push(
                                out@,
                                prefix + concept_plan(i as int, *concept, ds.take(j as int), *semantic, scope, ch),
                                report,
                                (0, i as int, j as int),
                                *config,
                                *semantic,
                                scope,
                                ch,
                            );
                        }
                        out.push(report);
                        assert(prefix + concept_plan(i as int, *concept, ds.take(j as int + 1), *semantic, scope, ch) =~= (prefix
                            + concept_plan(i as int, *concept, ds.take(j as int), *semantic, scope, ch)).push(
                            (0, i as int, j as int),
                        ));
                    } else {
                        assert(domain_required(semantic.closed_domains@, *d, ss, Some(*concept), ch) =~= Set::<SiteView>::empty()) by {
                            assert(crate::site_set::site_views(report.required_sites@) =~= Seq::<SiteView>::empty());
                        }
                    }
                }
            }
            assert(covered.deep_view().to_set() =~= cov0 + Set::new(
                |t: Text| exists|b: int| 0 <= b < j + 1 && concept_domain_matches(*concept, #[trigger] ds[b]) && ds[b].symbol_name@ == t,
            ));
            j = j + 1;
        }
        assert(ds.take(ds.len() as int) =~= ds);
        assert(cs.take(i as int + 1).drop_last() =~= cs.take(i as int));
        assert(cs.take(i as int + 1).last() == *concept);
        assert(covered.deep_view().to_set() =~= Set::new(
            |t: Text|
                exists|a: int, b: int|
                    0 <= a < i + 1 && 0 <= b < ds.len() && concept_domain_matches(#[trigger] cs[a], #[trigger] ds[b])
                        && ds[b].symbol_name@ == t,
        )) by {
            assert forall|t: Text| covered.deep_view().to_set().contains(t) implies Set::new(
                |t: Text|
                    exists|a: int, b: int|
                        0 <= a < i + 1 && 0 <= b < ds.len() && concept_domain_matches(#[trigger] cs[a], #[trigger] ds[b])
                            && ds[b].symbol_name@ == t,
            ).contains(t) by {
                if !cov0.contains(t) {
                    let b = choose|b: int| 0 <= b < ds.len() && concept_domain_matches(*concept, #[trigger] ds[b]) && ds[b].symbol_name@ == t;
                    assert(concept_domain_matches(cs[i as int], ds[b]));
                }
            }
        }
        i = i + 1;
    }
    assert(cs.take(cs.len() as int) =~= cs);
    assert(covered.deep_view().to_set() =~= Set::new(|t: Text| symbol_covered(cs, ds, t)));
    let ghost part1 = concepts_plan(cs, *semantic, scope, ch);
    let ghost ks = config.contract@;
    let mut k: usize = 0;
    while k < config.contract.len()
        invariant
            k <= ks.len(),
            ks == config.contract@,
            ch == changed.deep_view(),
            reports_follow_plan(out@, part1 + contracts_plan(*config, ks.take(k as int), *semantic, scope, ch), *config, *semantic, scope, ch),
        decreases ks.len() - k,
    {
        assert(ks.take(k as int + 1).drop_last() =~= ks.take(k as int));
        assert(ks.take(k as int + 1).last() == config.contract@[k as int]);
        match build_contract_obligation(config, &config.contract[k], semantic, scope, changed) {
            Some(report) => {
                proof {
                    lemma_follow_push(
                        out@,
                        part1 + contracts_plan(*config, ks.take(k as int), *semantic, scope, ch),
                        report,
                        (1, k as int, 0),
                        *config,
                        *semantic,
                        scope,
                        ch,
                    );
                }
                out.push(report);
                assert(part1 + contracts_plan(*config, ks.take(k as int + 1), *semantic, scope, ch) =~= (part1 + contracts_plan(
                    *config,
                    ks.take(k as int),
                    *semantic,
                    scope,
                    ch,
                )).push((1, k as int, 0)));
            },
            None => {},
        }
        k = k + 1;
    }
    assert(ks.take(ks.len() as int) =~= ks);
    let ghost part2 = part1 + contracts_plan(*config, ks, *semantic, scope, ch);
    let mut j: usize = 0;
    while j < semantic.closed_domains.len()
        invariant
            j <= ds.len(),
            cs == config.concept@,
            ds == semantic.closed_domains@,
            ss == semantic.closed_domain_sites@,
            ch == changed.deep_view(),
            strictly_sorted(covered.deep_view()),
            covered.deep_view().to_set() == Set::new(|t: Text| symbol_covered(cs, ds, t)),
            reports_follow_plan(out@, part2 + inferred_plan(*config, ds.take(j as int), *semantic, scope, ch), *config, *semantic, scope, ch),
        decreases ds.len() - j,
    {
        let d = &semantic.closed_domains[j];
        assert(ds.take(j as int + 1).drop_last() =~= ds.take(j as int));
        assert(ds.take(j as int + 1).last() == *d);
        let ghost before = part2 + inferred_plan(*config, ds.take(j as int), *semantic, scope, ch);
        let is_covered = crate::order::texts_contain(&covered, d.symbol_name.as_str());
        assert(is_covered == symbol_covered(cs, ds, d.symbol_name@)) by {
            assert(Set::new(|t: Text| symbol_covered(cs, ds, t)).contains(d.symbol_name@) == symbol_covered(
                cs,
                ds,
                d.symbol_name@,
            ));
            assert(covered.deep_view().to_set().contains(d.symbol_name@) == covered.deep_view().contains(
                d.symbol_name@,
            ));
        }
        if !is_covered && zero_config_domain_is_actionable(d, semantic) && (scope != ObligationScope::Changed
            || zero_config_domain_is_related_to_changed_files(d, semantic, changed)) {
            let report = build_domain_obligation(&semantic.closed_domains, d, &semantic.closed_domain_sites, None, changed);
            if report.missing_sites.len() > 0 {
                assert(domain_missing(semantic.closed_domains@, *d, ss, None, ch) != Set::<SiteView>::empty()) by {
                    assert(crate::site_set::site_views(report.missing_sites@).to_set().contains(
                        crate::site_set::site_views(report.missing_sites@)[0],
                    ));
                }
                proof {
                    lemma_follow_push(out@, before, report, (2, j as int, 0), *config, *semantic, scope, ch);
                }
                out.push(report);
                assert(part2 + inferred_plan(*config, ds.take(j as int + 1), *semantic, scope, ch) =~= before.push(
                    (2, j as int, 0),
                ));
            } else {
                assert(domain_missing(semantic.closed_domains@, *d, ss, None, ch) =~= Set::<SiteView>::empty()) by {
                    assert(crate::site_set::site_views(report.missing_sites@) =~= Seq::<SiteView>::empty());
                }
            }
        }
        j = j + 1;
    }
    assert(ds.take(ds.len() as int) =~= ds);
    out
}

/// What every obligation report says of its origin: it is a domain or a
/// contract obligation; an explicit one has a concept and some required
/// site; a zero-config one has no concept and some missing site; a contract
/// one is named after its contract, which it carries as concept.
pub open spec fn origin_facts(r: ObligationReport) -> bool {
    &&& (r.kind@ == "closed_domain_exhaustiveness"@ || r.kind@ == "contract_surface_completeness"@)
    &&& r.origin == ObligationOrigin::Explicit ==> r.concept_id is Some && r.context_burden > 0
    &&& r.origin == ObligationOrigin::ZeroConfig ==> r.concept_id is None && r.missing_sites@.len() > 0
    &&& r.kind@ == "contract_surface_completeness"@ ==> r.concept_id is Some && r.id@ == "contract::"@
        + r.concept_id->0@ && r.origin == ObligationOrigin::Explicit
}

proof fn lemma_concept_plan_entries(
    ci: int,
    c: ConceptRule,
    ds: Seq<ClosedDomain>,
    semantic: SemanticSnapshot,
    scope: ObligationScope,
    changed: Seq<Text>,
)
    ensures
        forall|k: int|
            0 <= k < concept_plan(ci, c, ds, semantic, scope, changed).len() ==> {
                let e = #[trigger] concept_plan(ci, c, ds, semantic, scope, changed)[k];
                &&& e.0 == 0 && e.1 == ci && 0 <= e.2 < ds.len()
                &&& concept_entry_kept(c, ds[e.2], semantic, scope, changed)
            },
    decreases ds.len(),
{
    if ds.len() > 0 {
        lemma_concept_plan_entries(ci, c, ds.drop_last(), semantic, scope, changed);
        let prev = concept_plan(ci, c, ds.drop_last(), semantic, scope, changed);
        assert forall|k: int| 0 <= k < prev.len() implies ds.drop_last()[prev[k].2] == ds[prev[k].2] by {}
    }
}

proof fn lemma_concepts_plan_entries(cs: Seq<ConceptRule>, semantic: SemanticSnapshot, scope: ObligationScope, changed: Seq<Text>)
    ensures
        forall|k: int|
            0 <= k < concepts_plan(cs, semantic, scope, changed).len() ==> {
                let e = #[trigger] concepts_plan(cs, semantic, scope, changed)[k];
                &&& e.0 == 0 && 0 <= e.1 < cs.len() && 0 <= e.2 < semantic.closed_domains@.len()
                &&& concept_entry_kept(cs[e.1], semantic.closed_domains@[e.2], semantic, scope, changed)
            },
    decreases cs.len(),
{
    if cs.len() > 0 {
        lemma_concepts_plan_entries(cs.drop_last(), semantic, scope, changed);
        let prev = concepts_plan(cs.drop_last(), semantic, scope, changed);
        let last = concept_plan(cs.len() - 1, cs.last(), semantic.closed_domains@, semantic, scope, changed);
        lemma_concept_plan_entries(cs.len() - 1, cs.last(), semantic.closed_domains@, semantic, scope, changed);
        assert forall|k: int| 0 <= k < prev.len() + last.len() implies {
            let e = #[trigger] (prev + last)[k];
            &&& e.0 == 0 && 0 <= e.1 < cs.len() && 0 <= e.2 < semantic.closed_domains@.len()
            &&& concept_entry_kept(cs[e.1], semantic.closed_domains@[e.2], semantic, scope, changed)
        } by {
            if k < prev.len() {
                assert((prev + last)[k] == prev[k]);
                assert(cs.drop_last()[prev[k].1] == cs[prev[k].1]);
            } else {
                assert((prev + last)[k] == last[k - prev.len()]);
            }
        }
    }
}

proof fn lemma_contracts_plan_entries(
    config: RulesConfig,
    ks: Seq<ContractRule>,
    semantic: SemanticSnapshot,
    scope: ObligationScope,
    changed: Seq<Text>,
)
    ensures
        forall|k: int|
            0 <= k < contracts_plan(config, ks, semantic, scope, changed).len() ==> {
                let e = #[trigger] contracts_plan(config, ks, semantic, scope, changed)[k];
                &&& e.0 == 1 && 0 <= e.1 < ks.len()
                &&& contract_obligation_due(config, ks[e.1], semantic, scope, changed)
            },
    decreases ks.len(),
{
    if ks.len() > 0 {
        lemma_contracts_plan_entries(config, ks.drop_last(), semantic, scope, changed);
        let prev = contracts_plan(config, ks.drop_last(), semantic, scope, changed);
        assert forall|k: int| 0 <= k < prev.len() implies ks.drop_last()[prev[k].1] == ks[prev[k].1] by {}
    }
}

proof fn lemma_inferred_plan_entries(
    config: RulesConfig,
    ds: Seq<ClosedDomain>,
    semantic: SemanticSnapshot,
    scope: ObligationScope,
    changed: Seq<Text>,
)
    ensures
        forall|k: int|
            0 <= k < inferred_plan(config, ds, semantic, scope, changed).len() ==> {
                let e = #[trigger] inferred_plan(config, ds, semantic, scope, changed)[k];
                &&& e.0 == 2 && 0 <= e.1 < ds.len()
                &&& inferred_kept(config, ds[e.1], semantic, scope, changed)
            },
    decreases ds.len(),
{
    if ds.len() > 0 {
        lemma_inferred_plan_entries(config, ds.drop_last(), semantic, scope, changed);
        let prev = inferred_plan(config, ds.drop_last(), semantic, scope, changed);
        assert forall|k: int| 0 <= k < prev.len() implies ds.drop_last()[prev[k].1] == ds[prev[k].1] by {}
    }
}

proof fn lemma_sites_nonempty(v: Seq<ObligationSite>, s: Set<SiteView>)
    requires
        site_views(v).to_set() == s,
        s != Set::<SiteView>::empty(),
    ensures
        v.len() > 0,
{
    if v.len() == 0 {
        assert(site_views(v) =~= Seq::<SiteView>::empty());
        assert(site_views(v).to_set() =~= Set::<SiteView>::empty());
    }
}

/// Every report that follows the obligation plan meets `origin_facts`.
proof fn lemma_planned_origin_facts(
    planned: Seq<ObligationReport>,
    config: RulesConfig,
    semantic: SemanticSnapshot,
    scope: ObligationScope,
    changed: Seq<Text>,
)
    requires
        reports_follow_plan(planned, obligation_plan(config, semantic, scope, changed), config, semantic, scope, changed),
    ensures
        forall|k: int| 0 <= k < planned.len() ==> origin_facts(#[trigger] planned[k]),
{
    reveal_strlit("closed_domain_exhaustiveness");
    reveal_strlit("contract_surface_completeness");
    assert("closed_domain_exhaustiveness"@.len() != "contract_surface_completeness"@.len());
    let a = concepts_plan(config.concept@, semantic, scope, changed);
    let b = contracts_plan(config, config.contract@, semantic, scope, changed);
    let c = inferred_plan(config, semantic.closed_domains@, semantic, scope, changed);
    lemma_concepts_plan_entries(config.concept@, semantic, scope, changed);
    lemma_contracts_plan_entries(config, config.contract@, semantic, scope, changed);
    lemma_inferred_plan_entries(config, semantic.closed_domains@, semantic, scope, changed);
    let plan = obligation_plan(config, semantic, scope, changed);
    assert(plan == a + b + c);
    let ds = semantic.closed_domains@;
    let ss = semantic.closed_domain_sites@;
    assert forall|k: int| 0 <= k < planned.len() implies origin_facts(#[trigger] planned[k]) by {
        let r = planned[k];
        assert(plans_report(r, plan[k], config, semantic, scope, changed));
        if k < a.len() {
            assert(plan[k] == a[k]);
            let e = a[k];
            let cr = config.concept@[e.1];
            let d = ds[e.2];
            assert(is_domain_obligation(ds, r, d, ss, Some(cr), changed));
            lemma_sites_nonempty(r.required_sites@, domain_required(ds, d, ss, Some(cr), changed));
            assert(r.kind@ != "contract_surface_completeness"@);
            assert(r.origin == ObligationOrigin::Explicit);
            assert(r.context_burden > 0);
        } else if k < a.len() + b.len() {
            assert(plan[k] == b[k - a.len()]);
            let e = b[k - a.len()];
            let kr = config.contract@[e.1];
            assert(is_contract_obligation(r, config, kr, semantic, scope, changed));
            assert(contract_obligation_due(config, kr, semantic, scope, changed));
            assert(r.context_burden > 0);
            assert(r.id@ == "contract::"@ + r.concept_id->0@);
        } else {
            assert(plan[k] == c[k - a.len() - b.len()]);
            let e = c[k - a.len() - b.len()];
            let d = ds[e.1];
            assert(is_domain_obligation(ds, r, d, ss, None, changed));
            assert(inferred_kept(config, d, semantic, scope, changed));
            lemma_sites_nonempty(r.missing_sites@, domain_missing(ds, d, ss, None, changed));
            assert(r.kind@ != "contract_surface_completeness"@);
            assert(r.origin == ObligationOrigin::ZeroConfig);
            assert(r.missing_sites@.len() > 0);
        }
    }
}

/// The obligations of a project: those of each concept on the closed domains
/// it governs (in scope, requiring some site), those of each due contract,
/// and those inferred for the closed domains no concept governs (where some
/// site is missing); listed by concept, domain symbol and id.
pub fn build_obligations(config: &RulesConfig, semantic: &SemanticSnapshot, scope: ObligationScope, changed_files: &Vec<String>) -> (r:
    Vec<ObligationReport>)
    ensures
        ranked_order(r@),
        exists|planned: Seq<ObligationReport>|
            reports_follow_plan(
                planned,
                obligation_plan(*config, *semantic, scope, changed_files.deep_view()),
                *config,
                *semantic,
                scope,
                changed_files.deep_view(),
            ) && #[trigger] planned.to_multiset() == r@.to_multiset() && crate::sorting::keeps_ties_in_order(r@, planned),
        forall|i: int, j: int|
            0 <= i < j < r@.len() ==> !key_lt(obligation_key(#[trigger] r@[j]), obligation_key(#[trigger] r@[i])),
        forall|i: int| 0 <= i < r@.len() ==> origin_facts(#[trigger] r@[i]),
{
    let planned = collect_obligations(config, semantic, scope, changed_files);
    let ghost pv = planned@;
    let r = sort_ranked(planned);
    assert(pv.to_multiset() == r@.to_multiset());
    proof {
        lemma_planned_origin_facts(pv, *config, *semantic, scope, changed_files.deep_view());
        assert forall|i: int| 0 <= i < r@.len() implies origin_facts(#[trigger] r@[i]) by {
            vstd::seq_lib::to_multiset_contains(r@, r@[i]);
            assert(r@.contains(r@[i]));
            vstd::seq_lib::to_multiset_contains(pv, r@[i]);
            let k = choose|k: int| 0 <= k < pv.len() && pv[k] == r@[i];
            assert(origin_facts(pv[k]));
        }
        assert forall|i: int, j: int| 0 <= i < j < r@.len() implies !key_lt(
            obligation_key(#[trigger] r@[j]),
            obligation_key(#[trigger] r@[i]),
        ) by {
            assert(!r@[j].ranks_before(r@[i]));
        }
    }
    r
}

} // verus!
