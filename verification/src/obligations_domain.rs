//! Closed-domain obligations: the sites that must handle every variant of a
//! closed domain, which of them do, and which concepts a change touches.
use crate::authority::{any_path_pattern_matches, path_pattern_matches};
use crate::grouping::{sorted_set, sorted_set_of};
use crate::obligations::{
    obligation_report_confidence, obligation_report_origin, obligation_report_score, obligation_report_severity,
    obligation_report_trust_tier, obligation_score, ObligationConfidence, ObligationOrigin, ObligationReport,
    ObligationSite, ObligationTrustTier, SiteView,
};
use crate::FindingSeverity;
use crate::order::{sorted_insert, strictly_sorted, texts_contain};
use crate::paths::{is_test_file, is_test_path};
use crate::concept_match::{concept_target_symbols, matches_any_target};
use crate::obligations::ObligationScope;
use crate::semantic::{
    path_from_scoped_value, scope_split, symbol_from_scoped_path, ClosedDomain, ConceptRule, ExhaustivenessSite,
    ExhaustivenessSiteKind, RulesConfig, SemanticSnapshot,
};
use crate::site_set::{lemma_site_order_strict, lemma_sorted_set_by_of, site_order, site_set_insert, site_views, sorted_by, sorted_set_by};
use crate::text::{dec, decimal, join, join_texts, push_line, Text};
use vstd::prelude::*;

verus! {

/// The path parts of the scoped values (`path::symbol`) that hold `::`, in order.
pub open spec fn scoped_value_paths(values: Seq<Text>) -> Seq<Text>
    decreases values.len(),
{
    if values.len() == 0 {
        Seq::empty()
    } else {
        let prev = scoped_value_paths(values.drop_last());
        match scope_split(values.last()) {
            Some(i) => prev.push(values.last().take(i)),
            None => prev,
        }
    }
}

/// The paths a concept rule governs: the path parts of its anchors,
/// authoritative inputs, allowed and forbidden writers, canonical accessors
/// and forbidden raw reads, then its related test patterns.
pub open spec fn concept_paths(c: ConceptRule) -> Seq<Text> {
    scoped_value_paths(c.anchors.deep_view()) + scoped_value_paths(c.authoritative_inputs.deep_view())
        + scoped_value_paths(c.allowed_writers.deep_view()) + scoped_value_paths(c.forbid_writers.deep_view())
        + scoped_value_paths(c.canonical_accessors.deep_view()) + scoped_value_paths(c.forbid_raw_reads.deep_view())
        + c.related_tests.deep_view()
}

pub fn push_scoped_paths(out: &mut Vec<String>, values: &Vec<String>)
    ensures
        final(out).deep_view() == old(out).deep_view() + scoped_value_paths(values.deep_view()),
{
    let ghost start = out.deep_view();
    let mut i: usize = 0;
    assert(values.deep_view().take(0) =~= Seq::<Text>::empty());
    assert(start + scoped_value_paths(Seq::<Text>::empty()) =~= start);
    while i < values.len()
        invariant
            i <= values@.len(),
            out.deep_view() == start + scoped_value_paths(values.deep_view().take(i as int)),
        decreases values@.len() - i,
    {
        let ghost upto = values.deep_view().take(i as int + 1);
        assert(upto.drop_last() =~= values.deep_view().take(i as int));
        assert(upto.last() == values@[i as int]@);
        if symbol_from_scoped_path(values[i].as_str()).is_some() {
            let p = path_from_scoped_value(values[i].as_str());
            let ghost before = out.deep_view();
            push_line(out, p);
            assert(out.deep_view() =~= before.push(p@));
        }
        i = i + 1;
    }
    assert(values.deep_view().take(values@.len() as int) =~= values.deep_view());
}

/// The paths a concept rule governs (see `concept_paths`).
pub fn concept_rule_paths(c: &ConceptRule) -> (r: Vec<String>)
    ensures
        r.deep_view() == concept_paths(*c),
{
    let mut r: Vec<String> = Vec::new();
    push_scoped_paths(&mut r, &c.anchors);
    push_scoped_paths(&mut r, &c.authoritative_inputs);
    push_scoped_paths(&mut r, &c.allowed_writers);
    push_scoped_paths(&mut r, &c.forbid_writers);
    push_scoped_paths(&mut r, &c.canonical_accessors);
    push_scoped_paths(&mut r, &c.forbid_raw_reads);
    let mut i: usize = 0;
    let ghost start = r.deep_view();
    while i < c.related_tests.len()
        invariant
            i <= c.related_tests@.len(),
            r.deep_view() == start + c.related_tests.deep_view().take(i as int),
        decreases c.related_tests@.len() - i,
    {
        push_line(&mut r, c.related_tests[i].clone());
        assert(c.related_tests.deep_view().take(i as int + 1) =~= c.related_tests.deep_view().take(i as int).push(
            c.related_tests@[i as int]@,
        ));
        i = i + 1;
    }
    assert(c.related_tests.deep_view().take(c.related_tests@.len() as int) =~= c.related_tests.deep_view());
    r
}

/// Some pattern selects some changed file.
pub open spec fn patterns_touch(patterns: Seq<Text>, changed: Seq<Text>) -> bool {
    exists|i: int, k: int|
        0 <= i < patterns.len() && 0 <= k < changed.len() && path_pattern_matches(
            #[trigger] patterns[i],
            #[trigger] changed[k],
        )
}

/// Whether some pattern selects some changed file.
pub fn patterns_touch_changed(patterns: &Vec<String>, changed: &Vec<String>) -> (r: bool)
    ensures
        r == patterns_touch(patterns.deep_view(), changed.deep_view()),
{
    let ghost ps = patterns.deep_view();
    let ghost ch = changed.deep_view();
    let mut k: usize = 0;
    while k < changed.len()
        invariant
            k <= ch.len(),
            ps == patterns.deep_view(),
            ch == changed.deep_view(),
            forall|i: int, q: int| 0 <= i < ps.len() && 0 <= q < k ==> !path_pattern_matches(#[trigger] ps[i], #[trigger] ch[q]),
        decreases ch.len() - k,
    {
        if any_path_pattern_matches(patterns, changed[k].as_str()) {
            assert(ch[k as int] == changed@[k as int]@);
            return true;
        }
        assert(ch[k as int] == changed@[k as int]@);
        k = k + 1;
    }
    false
}

/// The ids of the concepts that govern a changed file.
pub open spec fn changed_concept_ids(concepts: Seq<ConceptRule>, changed: Seq<Text>) -> Set<Text> {
    Set::new(
        |id: Text|
            exists|i: int|
                0 <= i < concepts.len() && (#[trigger] concepts[i]).id@ == id && patterns_touch(
                    concept_paths(concepts[i]),
                    changed,
                ),
    )
}

/// The ids of the concepts whose governed paths select a changed file, in
/// increasing order and without repeats.
pub fn changed_concept_ids_from_files(config: &RulesConfig, changed_files: &Vec<String>) -> (r: Vec<String>)
    ensures
        r.deep_view() == sorted_set(changed_concept_ids(config.concept@, changed_files.deep_view())),
        strictly_sorted(r.deep_view()),
        forall|id: Text|
            r.deep_view().contains(id) <==> exists|i: int|
                0 <= i < config.concept@.len() && (#[trigger] config.concept@[i]).id@ == id && patterns_touch(
                    concept_paths(config.concept@[i]),
                    changed_files.deep_view(),
                ),
{
    let ghost concepts = config.concept@;
    let ghost ch = changed_files.deep_view();
    let mut ids: Vec<String> = Vec::new();
    let mut i: usize = 0;
    assert(ids.deep_view().to_set() =~= Set::<Text>::empty());
    while i < config.concept.len()
        invariant
            concepts == config.concept@,
            ch == changed_files.deep_view(),
            i <= concepts.len(),
            ids.deep_view().to_set() == Set::new(
                |id: Text|
                    exists|q: int|
                        0 <= q < i && (#[trigger] concepts[q]).id@ == id && patterns_touch(concept_paths(concepts[q]), ch),
            ),
        decreases concepts.len() - i,
    {
        let concept = &config.concept[i];
        let paths = concept_rule_paths(concept);
        let ghost before = ids.deep_view();
        if patterns_touch_changed(&paths, changed_files) {
            push_line(&mut ids, concept.id.clone());
            proof {
                before.lemma_push_to_set_commute(concept.id@);
            }
        }
        assert(ids.deep_view().to_set() =~= Set::new(
            |id: Text|
                exists|q: int|
                    0 <= q < i + 1 && (#[trigger] concepts[q]).id@ == id && patterns_touch(concept_paths(concepts[q]), ch),
        )) by {
            assert(concepts[i as int] == *concept);
        }
        i = i + 1;
    }
    let r = sorted_set_of(&ids);
    proof {
        let want = changed_concept_ids(concepts, ch);
        assert(ids.deep_view().to_set() =~= want);
        crate::grouping::lemma_sorted_set_finite(want);
        assert forall|id: Text|
            r.deep_view().contains(id) <==> exists|i: int|
                0 <= i < config.concept@.len() && (#[trigger] config.concept@[i]).id@ == id && patterns_touch(
                    concept_paths(config.concept@[i]),
                    changed_files.deep_view(),
                ) by {
            assert(r.deep_view().to_set().contains(id) == r.deep_view().contains(id));
            assert(want.contains(id) == r.deep_view().contains(id));
        }
    }
    r
}

/// The name of a site kind.
pub open spec fn site_kind_text(k: ExhaustivenessSiteKind) -> Text {
    match k {
        ExhaustivenessSiteKind::Switch => "switch"@,
        ExhaustivenessSiteKind::Other => "other"@,
    }
}

fn site_kind_str(k: ExhaustivenessSiteKind) -> (r: &'static str)
    ensures
        r@ == site_kind_text(k),
{
    match k {
        ExhaustivenessSiteKind::Switch => "switch",
        ExhaustivenessSiteKind::Other => "other",
    }
}

/// The file that defines a closed domain: its declared defining file, or
/// its path.
pub open spec fn domain_file(d: ClosedDomain) -> Text {
    match d.defining_file {
        Some(f) => f@,
        None => d.path@,
    }
}

/// The site names a defining file other than that of `d`, and some closed
/// domain of the site's symbol is defined in that file: the site belongs to
/// that domain, not to `d`.
pub open spec fn claimed_elsewhere(ds: Seq<ClosedDomain>, d: ClosedDomain, s: ExhaustivenessSite) -> bool {
    match s.defining_file {
        Some(f) => domain_file(d) != f@ && exists|j: int|
            0 <= j < ds.len() && (#[trigger] ds[j]).symbol_name@ == s.domain_symbol_name@ && domain_file(ds[j]) == f@,
        None => false,
    }
}

fn file_of_domain(d: &ClosedDomain) -> (r: &str)
    ensures
        r@ == domain_file(*d),
{
    match &d.defining_file {
        Some(f) => f.as_str(),
        None => d.path.as_str(),
    }
}

fn site_claimed_elsewhere(domains: &Vec<ClosedDomain>, d: &ClosedDomain, s: &ExhaustivenessSite) -> (r: bool)
    ensures
        r == claimed_elsewhere(domains@, *d, *s),
{
    match &s.defining_file {
        None => false,
        Some(f) => {
            if crate::text::text_eq(file_of_domain(d), f.as_str()) {
                return false;
            }
            let mut j: usize = 0;
            while j < domains.len()
                invariant
                    j <= domains@.len(),
                    s.defining_file == Some(*f),
                    domain_file(*d) != f@,
                    forall|k: int|
                        0 <= k < j ==> !((#[trigger] domains@[k]).symbol_name@ == s.domain_symbol_name@ && domain_file(
                            domains@[k],
                        ) == f@),
                decreases domains@.len() - j,
            {
                let o = &domains[j];
                if crate::text::text_eq(o.symbol_name.as_str(), s.domain_symbol_name.as_str()) && crate::text::text_eq(
                    file_of_domain(o),
                    f.as_str(),
                ) {
                    return true;
                }
                j = j + 1;
            }
            false
        },
    }
}

/// A site handles the domain `d`: it names the domain's symbol, does not
/// belong to another domain of that symbol by its defining file, and, where
/// only production code counts, lies outside the test files.
pub open spec fn site_relevant(ds: Seq<ClosedDomain>, d: ClosedDomain, s: ExhaustivenessSite, production_only: bool) -> bool {
    &&& s.domain_symbol_name@ == d.symbol_name@
    &&& !claimed_elsewhere(ds, d, s)
    &&& production_only ==> !is_test_path(s.path@)
}

/// Some site of `ss` handles `d`.
pub open spec fn has_relevant_site(ds: Seq<ClosedDomain>, d: ClosedDomain, ss: Seq<ExhaustivenessSite>, production_only: bool) -> bool {
    exists|i: int| 0 <= i < ss.len() && site_relevant(ds, d, #[trigger] ss[i], production_only)
}

/// The variants of `d` that the site `s` does not cover.
pub open spec fn site_missing_variants(d: ClosedDomain, s: ExhaustivenessSite) -> Set<Text> {
    d.variants.deep_view().to_set().filter(|v: Text| !s.covered_variants.deep_view().contains(v))
}

/// The site covers every variant of `d`.
pub open spec fn site_complete(d: ClosedDomain, s: ExhaustivenessSite) -> bool {
    site_missing_variants(d, s) == Set::<Text>::empty()
}

/// What an obligation site says of a handling site: how many variants it
/// covers and how, or which variants it misses.
pub open spec fn site_detail(ds: Seq<ClosedDomain>, d: ClosedDomain, s: ExhaustivenessSite) -> Text {
    let base = if site_complete(d, s) {
        "covers "@ + dec(d.variants@.len()) + " variants via "@ + site_kind_text(s.site_kind)
    } else {
        "missing variants: "@ + join(sorted_set(site_missing_variants(d, s)), ", "@)
    };
    if symbol_shared(ds, d) {
        base + domain_note(d)
    } else {
        base
    }
}

/// Another closed domain, defined in another file, carries the symbol of `d`.
pub open spec fn symbol_shared(ds: Seq<ClosedDomain>, d: ClosedDomain) -> bool {
    exists|j: int|
        0 <= j < ds.len() && (#[trigger] ds[j]).symbol_name@ == d.symbol_name@ && domain_file(ds[j]) != domain_file(d)
}

/// Which of the domains of a shared symbol a site detail speaks of: its file
/// and its variants.
pub open spec fn domain_note(d: ClosedDomain) -> Text {
    "; domain "@ + domain_file(d) + " variants: "@ + join(d.variants.deep_view(), ", "@)
}

fn shared_symbol(domains: &Vec<ClosedDomain>, d: &ClosedDomain) -> (r: bool)
    ensures
        r == symbol_shared(domains@, *d),
{
    let mut j: usize = 0;
    while j < domains.len()
        invariant
            j <= domains@.len(),
            forall|k: int|
                0 <= k < j ==> !((#[trigger] domains@[k]).symbol_name@ == d.symbol_name@ && domain_file(domains@[k])
                    != domain_file(*d)),
        decreases domains@.len() - j,
    {
        let o = &domains[j];
        if crate::text::text_eq(o.symbol_name.as_str(), d.symbol_name.as_str()) && !crate::text::text_eq(
            file_of_domain(o),
            file_of_domain(d),
        ) {
            return true;
        }
        j = j + 1;
    }
    false
}

fn domain_note_text(d: &ClosedDomain) -> (r: String)
    ensures
        r@ == domain_note(*d),
{
    let mut r = "; domain ".to_string();
    r.append(file_of_domain(d));
    r.append(" variants: ");
    let j = join_texts(&d.variants, ", ");
    r.append(j.as_str());
    r
}

/// The obligation site of a handling site.
pub open spec fn coverage_site(ds: Seq<ClosedDomain>, d: ClosedDomain, s: ExhaustivenessSite) -> SiteView {
    (s.path@, site_kind_text(s.site_kind), Some(s.line), site_detail(ds, d, s))
}

/// The obligation sites of the handling sites of `d` that are complete
/// (`complete`) or not (`!complete`); with `any`, of all of them.
pub open spec fn coverage_sites(ds: Seq<ClosedDomain>, 
    d: ClosedDomain,
    ss: Seq<ExhaustivenessSite>,
    production_only: bool,
    any: bool,
    complete: bool,
) -> Set<SiteView> {
    Set::new(
        |v: SiteView|
            exists|i: int|
                0 <= i < ss.len() && site_relevant(ds, d, #[trigger] ss[i], production_only) && (any || site_complete(d, ss[i])
                    == complete) && v == coverage_site(ds, d, ss[i]),
    )
}

/// The variants of `d` that some handling site misses.
pub open spec fn coverage_variants(ds: Seq<ClosedDomain>, d: ClosedDomain, ss: Seq<ExhaustivenessSite>, production_only: bool) -> Set<Text> {
    Set::new(
        |t: Text|
            exists|i: int|
                0 <= i < ss.len() && site_relevant(ds, d, #[trigger] ss[i], production_only) && site_missing_variants(d, ss[i]).contains(t),
    )
}

/// The file of `d` and the files of its handling sites.
pub open spec fn coverage_files(ds: Seq<ClosedDomain>, d: ClosedDomain, ss: Seq<ExhaustivenessSite>, production_only: bool) -> Set<Text> {
    Set::new(
        |t: Text|
            t == d.path@ || exists|i: int|
                0 <= i < ss.len() && site_relevant(ds, d, #[trigger] ss[i], production_only) && ss[i].path@ == t,
    )
}

/// The handling sites of a closed domain, split as obligation sites, with the
/// variants they miss and the files they stand in.
struct Coverage {
    files: Vec<String>,
    required: Vec<ObligationSite>,
    satisfied: Vec<ObligationSite>,
    missing: Vec<ObligationSite>,
    variants: Vec<String>,
    any_site: bool,
}

fn site_missing_variant_list(d: &ClosedDomain, s: &ExhaustivenessSite) -> (r: Vec<String>)
    ensures
        strictly_sorted(r.deep_view()),
        r.deep_view().to_set() == site_missing_variants(*d, *s),
{
    let ghost vs = d.variants.deep_view();
    let ghost cov = s.covered_variants.deep_view();
    let mut r: Vec<String> = Vec::new();
    let mut i: usize = 0;
    assert(r.deep_view().to_set() =~= Set::<Text>::empty());
    while i < d.variants.len()
        invariant
            i <= vs.len(),
            vs == d.variants.deep_view(),
            cov == s.covered_variants.deep_view(),
            strictly_sorted(r.deep_view()),
            r.deep_view().to_set() == Set::new(|t: Text| exists|k: int| 0 <= k < i && #[trigger] vs[k] == t && !cov.contains(t)),
        decreases vs.len() - i,
    {
        assert(vs[i as int] == d.variants@[i as int]@);
        if !texts_contain(&s.covered_variants, d.variants[i].as_str()) {
            sorted_insert(&mut r, d.variants[i].as_str());
        }
        assert(r.deep_view().to_set() =~= Set::new(
            |t: Text| exists|k: int| 0 <= k < i + 1 && #[trigger] vs[k] == t && !cov.contains(t),
        ));
        i = i + 1;
    }
    assert(r.deep_view().to_set() =~= site_missing_variants(*d, *s)) by {
        assert forall|t: Text| site_missing_variants(*d, *s).contains(t) implies r.deep_view().to_set().contains(t) by {
            let k = choose|k: int| 0 <= k < vs.len() && vs[k] == t;
        }
    }
    r
}

fn coverage_detail(domains: &Vec<ClosedDomain>, d: &ClosedDomain, s: &ExhaustivenessSite, missing: &Vec<String>) -> (r: String)
    requires
        strictly_sorted(missing.deep_view()),
        missing.deep_view().to_set() == site_missing_variants(*d, *s),
    ensures
        r@ == site_detail(domains@, *d, *s),
{
    let mut r = coverage_base_detail(d, s, missing);
    if shared_symbol(domains, d) {
        let note = domain_note_text(d);
        r.append(note.as_str());
    }
    r
}

fn coverage_base_detail(d: &ClosedDomain, s: &ExhaustivenessSite, missing: &Vec<String>) -> (r: String)
    requires
        strictly_sorted(missing.deep_view()),
        missing.deep_view().to_set() == site_missing_variants(*d, *s),
    ensures
        r@ == (if site_complete(*d, *s) {
            "covers "@ + dec(d.variants@.len()) + " variants via "@ + site_kind_text(s.site_kind)
        } else {
            "missing variants: "@ + join(sorted_set(site_missing_variants(*d, *s)), ", "@)
        }),
{
    proof {
        crate::grouping::lemma_sorted_set_of(missing.deep_view());
    }
    if missing.len() == 0 {
        assert(missing.deep_view().to_set() =~= Set::<Text>::empty());
        let mut r = "covers ".to_string();
        let n = decimal(d.variants.len() as u64);
        r.append(n.as_str());
        r.append(" variants via ");
        r.append(site_kind_str(s.site_kind));
        r
    } else {
        assert(missing.deep_view().to_set().contains(missing.deep_view()[0]));
        let mut r = "missing variants: ".to_string();
        let j = join_texts(missing, ", ");
        r.append(j.as_str());
        r
    }
}

fn evaluate_coverage(domains: &Vec<ClosedDomain>, d: &ClosedDomain, ss: &Vec<ExhaustivenessSite>, production_only: bool) -> (c: Coverage)
    ensures
        strictly_sorted(c.files.deep_view()),
        c.files.deep_view().to_set() == coverage_files(domains@, *d, ss@, production_only),
        sorted_by(site_views(c.required@), site_order()),
        site_views(c.required@).to_set() == coverage_sites(domains@, *d, ss@, production_only, true, true),
        sorted_by(site_views(c.satisfied@), site_order()),
        site_views(c.satisfied@).to_set() == coverage_sites(domains@, *d, ss@, production_only, false, true),
        sorted_by(site_views(c.missing@), site_order()),
        site_views(c.missing@).to_set() == coverage_sites(domains@, *d, ss@, production_only, false, false),
        strictly_sorted(c.variants.deep_view()),
        c.variants.deep_view().to_set() == coverage_variants(domains@, *d, ss@, production_only),
        c.any_site == has_relevant_site(domains@, *d, ss@, production_only),
{
    let mut files: Vec<String> = Vec::new();
    let mut required: Vec<ObligationSite> = Vec::new();
    let mut satisfied: Vec<ObligationSite> = Vec::new();
    let mut missing: Vec<ObligationSite> = Vec::new();
    let mut variants: Vec<String> = Vec::new();
    let mut any_site = false;
    sorted_insert(&mut files, d.path.as_str());
    let mut i: usize = 0;
    assert(site_views(required@) =~= Seq::<SiteView>::empty());
    assert(site_views(satisfied@) =~= Seq::<SiteView>::empty());
    assert(site_views(missing@) =~= Seq::<SiteView>::empty());
    assert(variants.deep_view() =~= Seq::<Text>::empty());
    assert(files.deep_view().to_set() =~= Set::<Text>::empty().insert(d.path@));
    while i < ss.len()
        invariant
            i <= ss@.len(),
            strictly_sorted(files.deep_view()),
            files.deep_view().to_set() == coverage_files(domains@, *d, ss@.take(i as int), production_only),
            sorted_by(site_views(required@), site_order()),
            site_views(required@).to_set() == coverage_sites(domains@, *d, ss@.take(i as int), production_only, true, true),
            sorted_by(site_views(satisfied@), site_order()),
            site_views(satisfied@).to_set() == coverage_sites(domains@, *d, ss@.take(i as int), production_only, false, true),
            sorted_by(site_views(missing@), site_order()),
            site_views(missing@).to_set() == coverage_sites(domains@, *d, ss@.take(i as int), production_only, false, false),
            strictly_sorted(variants.deep_view()),
            variants.deep_view().to_set() == coverage_variants(domains@, *d, ss@.take(i as int), production_only),
            any_site == has_relevant_site(domains@, *d, ss@.take(i as int), production_only),
        decreases ss@.len() - i,
    {
        let s = &ss[i];
        let ghost pre = ss@.take(i as int);
        let ghost post = ss@.take(i as int + 1);
        assert(post =~= pre.push(*s));
        let relevant = crate::text::text_eq(s.domain_symbol_name.as_str(), d.symbol_name.as_str())
            && !site_claimed_elsewhere(domains, d, s) && (!production_only || !is_test_file(s.path.as_str()));
        if relevant {
            any_site = true;
            sorted_insert(&mut files, s.path.as_str());
            let site_variants = site_missing_variant_list(d, s);
            let detail = coverage_detail(domains, d, s, &site_variants);
            let site = ObligationSite {
                path: s.path.clone(),
                kind: site_kind_str(s.site_kind).to_string(),
                line: Some(s.line),
                detail,
            };
            assert(site@ == coverage_site(domains@, *d, *s));
            site_set_insert(&mut required, &site);
            if site_variants.len() == 0 {
                assert(site_variants.deep_view().to_set() =~= Set::<Text>::empty());
                site_set_insert(&mut satisfied, &site);
            } else {
                assert(site_variants.deep_view().to_set().contains(site_variants.deep_view()[0]));
                let mut k: usize = 0;
                let ghost vstart = variants.deep_view().to_set();
                while k < site_variants.len()
                    invariant
                        k <= site_variants@.len(),
                        strictly_sorted(variants.deep_view()),
                        variants.deep_view().to_set() == vstart + site_variants.deep_view().take(k as int).to_set(),
                    decreases site_variants@.len() - k,
                {
                    sorted_insert(&mut variants, site_variants[k].as_str());
                    assert(site_variants.deep_view().take(k as int + 1) =~= site_variants.deep_view().take(k as int).push(
                        site_variants@[k as int]@,
                    ));
                    proof {
                        site_variants.deep_view().take(k as int).lemma_push_to_set_commute(site_variants@[k as int]@);
                    }
                    assert(variants.deep_view().to_set() =~= vstart + site_variants.deep_view().take(k as int + 1).to_set());
                    k = k + 1;
                }
                assert(site_variants.deep_view().take(site_variants@.len() as int) =~= site_variants.deep_view());
                site_set_insert(&mut missing, &site);
            }
        }
        assert(files.deep_view().to_set() =~= coverage_files(domains@, *d, post, production_only)) by {
            assert(post[i as int] == *s);
            assert forall|t: Text| coverage_files(domains@, *d, post, production_only).contains(t) implies files.deep_view().to_set().contains(t) by {
                if t != d.path@ {
                    let q = choose|q: int| 0 <= q < post.len() && site_relevant(domains@, *d, #[trigger] post[q], production_only) && post[q].path@ == t;
                    if q < i {
                        assert(pre[q] == post[q]);
                    }
                }
            }
            assert forall|t: Text| files.deep_view().to_set().contains(t) implies coverage_files(domains@, *d, post, production_only).contains(t) by {
                if t != d.path@ && !(relevant && t == s.path@) {
                    let q = choose|q: int| 0 <= q < pre.len() && site_relevant(domains@, *d, #[trigger] pre[q], production_only) && pre[q].path@ == t;
                    assert(post[q] == pre[q]);
                }
            }
        }
        assert(site_views(required@).to_set() =~= coverage_sites(domains@, *d, post, production_only, true, true)) by {
            assert(post[i as int] == *s);
            assert forall|v: SiteView| coverage_sites(domains@, *d, post, production_only, true, true).contains(v) implies site_views(required@).to_set().contains(v) by {
                let q = choose|q: int| 0 <= q < post.len() && site_relevant(domains@, *d, #[trigger] post[q], production_only) && v == coverage_site(domains@, *d, post[q]);
                if q < i {
                    assert(pre[q] == post[q]);
                }
            }
            assert forall|v: SiteView| site_views(required@).to_set().contains(v) implies coverage_sites(domains@, *d, post, production_only, true, true).contains(v) by {
                if !(relevant && v == coverage_site(domains@, *d, *s)) {
                    let q = choose|q: int| 0 <= q < pre.len() && site_relevant(domains@, *d, #[trigger] pre[q], production_only) && v == coverage_site(domains@, *d, pre[q]);
                    assert(post[q] == pre[q]);
                }
            }
        }
        assert(site_views(satisfied@).to_set() =~= coverage_sites(domains@, *d, post, production_only, false, true)) by {
            assert(post[i as int] == *s);
            assert forall|v: SiteView| coverage_sites(domains@, *d, post, production_only, false, true).contains(v) implies site_views(satisfied@).to_set().contains(v) by {
                let q = choose|q: int| 0 <= q < post.len() && site_relevant(domains@, *d, #[trigger] post[q], production_only) && site_complete(*d, post[q]) == true && v == coverage_site(domains@, *d, post[q]);
                if q < i {
                    assert(pre[q] == post[q]);
                }
            }
            assert forall|v: SiteView| site_views(satisfied@).to_set().contains(v) implies coverage_sites(domains@, *d, post, production_only, false, true).contains(v) by {
                if !(relevant && site_complete(*d, *s) && v == coverage_site(domains@, *d, *s)) {
                    let q = choose|q: int| 0 <= q < pre.len() && site_relevant(domains@, *d, #[trigger] pre[q], production_only) && site_complete(*d, pre[q]) == true && v == coverage_site(domains@, *d, pre[q]);
                    assert(post[q] == pre[q]);
                }
            }
        }
        assert(site_views(missing@).to_set() =~= coverage_sites(domains@, *d, post, production_only, false, false)) by {
            assert(post[i as int] == *s);
            assert forall|v: SiteView| coverage_sites(domains@, *d, post, production_only, false, false).contains(v) implies site_views(missing@).to_set().contains(v) by {
                let q = choose|q: int| 0 <= q < post.len() && site_relevant(domains@, *d, #[trigger] post[q], production_only) && site_complete(*d, post[q]) == false && v == coverage_site(domains@, *d, post[q]);
                if q < i {
                    assert(pre[q] == post[q]);
                }
            }
            assert forall|v: SiteView| site_views(missing@).to_set().contains(v) implies coverage_sites(domains@, *d, post, production_only, false, false).contains(v) by {
                if !(relevant && !site_complete(*d, *s) && v == coverage_site(domains@, *d, *s)) {
                    let q = choose|q: int| 0 <= q < pre.len() && site_relevant(domains@, *d, #[trigger] pre[q], production_only) && site_complete(*d, pre[q]) == false && v == coverage_site(domains@, *d, pre[q]);
                    assert(post[q] == pre[q]);
                }
            }
        }
        assert(variants.deep_view().to_set() =~= coverage_variants(domains@, *d, post, production_only)) by {
            assert(post[i as int] == *s);
            assert forall|t: Text| coverage_variants(domains@, *d, post, production_only).contains(t) implies variants.deep_view().to_set().contains(t) by {
                let q = choose|q: int| 0 <= q < post.len() && site_relevant(domains@, *d, #[trigger] post[q], production_only) && site_missing_variants(*d, post[q]).contains(t);
                if q < i {
                    assert(pre[q] == post[q]);
                }
            }
            assert forall|t: Text| variants.deep_view().to_set().contains(t) implies coverage_variants(domains@, *d, post, production_only).contains(t) by {
                if !(relevant && site_missing_variants(*d, *s).contains(t)) {
                    let q = choose|q: int| 0 <= q < pre.len() && site_relevant(domains@, *d, #[trigger] pre[q], production_only) && site_missing_variants(*d, pre[q]).contains(t);
                    assert(post[q] == pre[q]);
                }
            }
        }
        assert(any_site == has_relevant_site(domains@, *d, post, production_only)) by {
            assert(post[i as int] == *s);
            if has_relevant_site(domains@, *d, post, production_only) && !relevant {
                let q = choose|q: int| 0 <= q < post.len() && site_relevant(domains@, *d, #[trigger] post[q], production_only);
                assert(pre[q] == post[q]);
            }
            if has_relevant_site(domains@, *d, pre, production_only) {
                let q = choose|q: int| 0 <= q < pre.len() && site_relevant(domains@, *d, #[trigger] pre[q], production_only);
                assert(pre[q] == post[q]);
            }
        }
        i = i + 1;
    }
    assert(ss@.take(ss@.len() as int) =~= ss@);
    Coverage { files, required, satisfied, missing, variants, any_site }
}

/// The site an obligation requires when a concept's domain has no handling
/// site at all.
pub open spec fn declared_site(d: ClosedDomain) -> SiteView {
    (
        d.path@,
        "closed_domain"@,
        Some(d.line),
        "no exhaustive mapping or switch site found for '"@ + d.symbol_name@ + "'"@,
    )
}

/// The declared site, where a concept governs `d` and no site handles it.
pub open spec fn declared_sites(ds: Seq<ClosedDomain>, d: ClosedDomain, ss: Seq<ExhaustivenessSite>, concept: Option<ConceptRule>) -> Set<
    SiteView,
> {
    if concept is Some && !has_relevant_site(ds, d, ss, false) {
        Set::<SiteView>::empty().insert(declared_site(d))
    } else {
        Set::empty()
    }
}

/// The obligation site of a related test pattern.
pub open spec fn related_site(p: Text) -> SiteView {
    (p, "related_test"@, None, "related test coverage for changed concept"@)
}

/// Some changed file is selected by the pattern.
pub open spec fn pattern_touches(p: Text, changed: Seq<Text>) -> bool {
    exists|k: int| 0 <= k < changed.len() && path_pattern_matches(p, #[trigger] changed[k])
}

/// The related test sites of a concept, where it has related tests and some
/// file changed: all of them (`any`), or those whose pattern selects a changed
/// file (`touched`) or not (`!touched`).
pub open spec fn related_sites(concept: Option<ConceptRule>, changed: Seq<Text>, any: bool, touched: bool) -> Set<SiteView> {
    match concept {
        Some(c) => if c.related_tests@.len() > 0 && changed.len() > 0 {
            Set::new(
                |v: SiteView|
                    exists|i: int|
                        0 <= i < c.related_tests@.len() && (any || pattern_touches(
                            #[trigger] c.related_tests.deep_view()[i],
                            changed,
                        ) == touched) && v == related_site(c.related_tests.deep_view()[i]),
            )
        } else {
            Set::empty()
        },
        None => Set::empty(),
    }
}

/// The sites an obligation on `d` requires.
pub open spec fn domain_required(ds: Seq<ClosedDomain>, d: ClosedDomain, ss: Seq<ExhaustivenessSite>, concept: Option<ConceptRule>, changed: Seq<Text>) -> Set<
    SiteView,
> {
    coverage_sites(ds, d, ss, concept is None, true, true) + declared_sites(ds, d, ss, concept) + related_sites(
        concept,
        changed,
        true,
        true,
    )
}

/// The required sites of an obligation on `d` that are satisfied.
pub open spec fn domain_satisfied(ds: Seq<ClosedDomain>, d: ClosedDomain, ss: Seq<ExhaustivenessSite>, concept: Option<ConceptRule>, changed: Seq<Text>) -> Set<
    SiteView,
> {
    coverage_sites(ds, d, ss, concept is None, false, true) + related_sites(concept, changed, false, true)
}

/// The required sites of an obligation on `d` that are missing.
pub open spec fn domain_missing(ds: Seq<ClosedDomain>, d: ClosedDomain, ss: Seq<ExhaustivenessSite>, concept: Option<ConceptRule>, changed: Seq<Text>) -> Set<
    SiteView,
> {
    coverage_sites(ds, d, ss, concept is None, false, false) + declared_sites(ds, d, ss, concept) + related_sites(
        concept,
        changed,
        false,
        false,
    )
}

/// The id of an obligation on `d`: the concept and the domain, or the domain alone.
pub open spec fn domain_obligation_id(d: ClosedDomain, concept: Option<ConceptRule>) -> Text {
    match concept {
        Some(c) => c.id@ + "::"@ + d.symbol_name@,
        None => "closed_domain::"@ + d.symbol_name@,
    }
}

/// The name an obligation on `d` goes by: its concept, or the domain.
pub open spec fn domain_label(ds: Seq<ClosedDomain>, d: ClosedDomain, concept: Option<ConceptRule>) -> Text {
    match concept {
        Some(c) => c.id@,
        None => if symbol_shared(ds, d) {
            d.symbol_name@ + " ("@ + domain_file(d) + ")"@
        } else {
            d.symbol_name@
        },
    }
}

/// The summary of an obligation on a domain with `variant_count` variants.
pub open spec fn domain_summary(label: Text, variant_count: nat, complete: bool, variants: Seq<Text>) -> Text {
    if complete {
        "Closed domain '"@ + label + "' is fully covered across "@ + dec(variant_count) + " required sites"@
    } else if variants.len() == 0 {
        "Closed domain '"@ + label + "' is missing required update sites"@
    } else {
        "Closed domain '"@ + label + "' is missing coverage for variants: "@ + join(variants, ", "@)
    }
}

/// The origin of an obligation on a domain: explicit when a concept governs it.
pub open spec fn domain_origin(concept: Option<ConceptRule>) -> ObligationOrigin {
    if concept is Some {
        ObligationOrigin::Explicit
    } else {
        ObligationOrigin::ZeroConfig
    }
}

/// `r` is the exhaustiveness obligation on `d`, governed by `concept` (or
/// inferred, without one), over the handling sites `ss` and the changed files.
pub open spec fn is_domain_obligation(ds: Seq<ClosedDomain>, 
    r: ObligationReport,
    d: ClosedDomain,
    ss: Seq<ExhaustivenessSite>,
    concept: Option<ConceptRule>,
    changed: Seq<Text>,
) -> bool {
    let origin = domain_origin(concept);
    let variants = sorted_set(coverage_variants(ds, d, ss, concept is None));
    let missing = domain_missing(ds, d, ss, concept, changed);
    &&& r.id@ == domain_obligation_id(d, concept)
    &&& r.kind@ == "closed_domain_exhaustiveness"@
    &&& match concept {
        Some(c) => r.concept_id is Some && r.concept_id->0@ == c.id@,
        None => r.concept_id is None,
    }
    &&& r.domain_symbol_name is Some && r.domain_symbol_name->0@ == d.symbol_name@
    &&& r.origin == origin
    &&& r.trust_tier == (if concept is Some { ObligationTrustTier::Trusted } else { ObligationTrustTier::Watchpoint })
    &&& r.confidence == (if concept is Some { ObligationConfidence::High } else { ObligationConfidence::Medium })
    &&& r.severity == FindingSeverity::High
    &&& r.score_0_10000 == obligation_score(FindingSeverity::High, origin, r.missing_sites@.len() as usize)
    &&& r.summary@ == domain_summary(domain_label(ds, d, concept), d.variants@.len(), missing == Set::<SiteView>::empty(), variants)
    &&& r.files.deep_view() == sorted_set(coverage_files(ds, d, ss, concept is None))
    &&& site_views(r.required_sites@) == sorted_set_by(domain_required(ds, d, ss, concept, changed), site_order())
    &&& site_views(r.required_sites@).to_set() == domain_required(ds, d, ss, concept, changed)
    &&& site_views(r.missing_sites@).to_set() == missing
    &&& site_views(r.satisfied_sites@) == sorted_set_by(domain_satisfied(ds, d, ss, concept, changed), site_order())
    &&& site_views(r.missing_sites@) == sorted_set_by(missing, site_order())
    &&& r.missing_variants.deep_view() == variants
    &&& r.context_burden == r.required_sites@.len()
}

/// Whether some changed file is selected by the pattern.
pub fn pattern_touches_changed(p: &str, changed: &Vec<String>) -> (r: bool)
    ensures
        r == pattern_touches(p@, changed.deep_view()),
{
    let ghost ch = changed.deep_view();
    let mut k: usize = 0;
    while k < changed.len()
        invariant
            k <= ch.len(),
            ch == changed.deep_view(),
            forall|q: int| 0 <= q < k ==> !path_pattern_matches(p@, #[trigger] ch[q]),
        decreases ch.len() - k,
    {
        assert(ch[k as int] == changed@[k as int]@);
        if crate::semantic::glob_match(p, changed[k].as_str()) || crate::text::text_eq(p, changed[k].as_str()) {
            return true;
        }
        k = k + 1;
    }
    false
}

fn domain_summary_text(label: &str, variant_count: usize, complete: bool, variants: &Vec<String>) -> (r: String)
    ensures
        r@ == domain_summary(label@, variant_count as nat, complete, variants.deep_view()),
{
    let mut r = "Closed domain '".to_string();
    r.append(label);
    if complete {
        r.append("' is fully covered across ");
        let n = decimal(variant_count as u64);
        r.append(n.as_str());
        r.append(" required sites");
    } else if variants.len() == 0 {
        r.append("' is missing required update sites");
    } else {
        r.append("' is missing coverage for variants: ");
        let j = join_texts(variants, ", ");
        r.append(j.as_str());
    }
    r
}

/// The exhaustiveness obligation on the closed domain `d`: with a concept,
/// over every site that handles it, with the declared site where none does
/// and the concept's related tests where files changed; without one, over
/// its production sites alone.
pub fn build_domain_obligation(
    domains: &Vec<ClosedDomain>,
    d: &ClosedDomain,
    ss: &Vec<ExhaustivenessSite>,
    concept: Option<&ConceptRule>,
    changed: &Vec<String>,
) -> (r: ObligationReport)
    ensures
        is_domain_obligation(domains@, 
            r,
            *d,
            ss@,
            match concept {
                Some(c) => Some(*c),
                None => None,
            },
            changed.deep_view(),
        ),
{
    let ghost cs = match concept {
        Some(c) => Some(*c),
        None => None::<ConceptRule>,
    };
    let ghost ch = changed.deep_view();
    let production_only = concept.is_none();
    let cov = evaluate_coverage(domains, d, ss, production_only);
    let Coverage { files, required, satisfied, missing, variants, any_site } = cov;
    let mut required = required;
    let mut satisfied = satisfied;
    let mut missing = missing;
    let ghost req0 = site_views(required@).to_set();
    let ghost sat0 = site_views(satisfied@).to_set();
    let ghost mis0 = site_views(missing@).to_set();
    if concept.is_some() && !any_site {
        let mut detail = "no exhaustive mapping or switch site found for '".to_string();
        detail.append(d.symbol_name.as_str());
        detail.append("'");
        let site = ObligationSite { path: d.path.clone(), kind: "closed_domain".to_string(), line: Some(d.line), detail };
        assert(site@ == declared_site(*d));
        site_set_insert(&mut required, &site);
        site_set_insert(&mut missing, &site);
    }
    assert(site_views(required@).to_set() == req0 + declared_sites(domains@, *d, ss@, cs));
    assert(site_views(missing@).to_set() == mis0 + declared_sites(domains@, *d, ss@, cs));
    let ghost req1 = site_views(required@).to_set();
    let ghost mis1 = site_views(missing@).to_set();
    match concept {
        Some(c) => {
            if c.related_tests.len() > 0 && changed.len() > 0 {
                let ghost tests = c.related_tests.deep_view();
                let mut i: usize = 0;
                while i < c.related_tests.len()
                    invariant
                        i <= tests.len(),
                        tests == c.related_tests.deep_view(),
                        ch == changed.deep_view(),
                        sorted_by(site_views(required@), site_order()),
                        sorted_by(site_views(satisfied@), site_order()),
                        sorted_by(site_views(missing@), site_order()),
                        site_views(required@).to_set() == req1 + Set::new(
                            |v: SiteView| exists|q: int| 0 <= q < i && v == related_site(#[trigger] tests[q]),
                        ),
                        site_views(satisfied@).to_set() == sat0 + Set::new(
                            |v: SiteView| exists|q: int| 0 <= q < i && pattern_touches(#[trigger] tests[q], ch) && v == related_site(tests[q]),
                        ),
                        site_views(missing@).to_set() == mis1 + Set::new(
                            |v: SiteView| exists|q: int| 0 <= q < i && !pattern_touches(#[trigger] tests[q], ch) && v == related_site(tests[q]),
                        ),
                    decreases tests.len() - i,
                {
                    assert(tests[i as int] == c.related_tests@[i as int]@);
                    let site = ObligationSite {
                        path: c.related_tests[i].clone(),
                        kind: "related_test".to_string(),
                        line: None,
                        detail: "related test coverage for changed concept".to_string(),
                    };
                    assert(site@ == related_site(tests[i as int]));
                    site_set_insert(&mut required, &site);
                    let touched = pattern_touches_changed(c.related_tests[i].as_str(), changed);
                    if touched {
                        site_set_insert(&mut satisfied, &site);
                    } else {
                        site_set_insert(&mut missing, &site);
                    }
                    assert(site_views(required@).to_set() =~= req1 + Set::new(
                        |v: SiteView| exists|q: int| 0 <= q < i + 1 && v == related_site(#[trigger] tests[q]),
                    ));
                    assert(touched == pattern_touches(tests[i as int], ch));
                    let ghost sat_next = Set::new(
                        |v: SiteView| exists|q: int| 0 <= q < i + 1 && pattern_touches(#[trigger] tests[q], ch) && v == related_site(tests[q]),
                    );
                    let ghost sat_prev = Set::new(
                        |v: SiteView| exists|q: int| 0 <= q < i && pattern_touches(#[trigger] tests[q], ch) && v == related_site(tests[q]),
                    );
                    assert(sat_next =~= if touched { sat_prev.insert(related_site(tests[i as int])) } else { sat_prev }) by {
                        assert forall|v: SiteView| sat_next.contains(v) implies (if touched { sat_prev.insert(related_site(tests[i as int])) } else { sat_prev }).contains(v) by {
                            let q = choose|q: int| 0 <= q < i + 1 && pattern_touches(#[trigger] tests[q], ch) && v == related_site(tests[q]);
                            if q < i {
                                assert(sat_prev.contains(v));
                            }
                        }
                    }
                    assert(site_views(satisfied@).to_set() =~= sat0 + sat_next);
                    let ghost mis_next = Set::new(
                        |v: SiteView| exists|q: int| 0 <= q < i + 1 && !pattern_touches(#[trigger] tests[q], ch) && v == related_site(tests[q]),
                    );
                    let ghost mis_prev = Set::new(
                        |v: SiteView| exists|q: int| 0 <= q < i && !pattern_touches(#[trigger] tests[q], ch) && v == related_site(tests[q]),
                    );
                    assert(mis_next =~= if !touched { mis_prev.insert(related_site(tests[i as int])) } else { mis_prev }) by {
                        assert forall|v: SiteView| mis_next.contains(v) implies (if !touched { mis_prev.insert(related_site(tests[i as int])) } else { mis_prev }).contains(v) by {
                            let q = choose|q: int| 0 <= q < i + 1 && !pattern_touches(#[trigger] tests[q], ch) && v == related_site(tests[q]);
                            if q < i {
                                assert(mis_prev.contains(v));
                            }
                        }
                    }
                    assert(site_views(missing@).to_set() =~= mis1 + mis_next);
                    i = i + 1;
                }
                assert(site_views(required@).to_set() =~= req1 + related_sites(cs, ch, true, true));
                assert(site_views(satisfied@).to_set() =~= sat0 + related_sites(cs, ch, false, true));
                assert(site_views(missing@).to_set() =~= mis1 + related_sites(cs, ch, false, false));
            } else {
                assert(related_sites(cs, ch, true, true) =~= Set::<SiteView>::empty());
                assert(related_sites(cs, ch, false, true) =~= Set::<SiteView>::empty());
                assert(related_sites(cs, ch, false, false) =~= Set::<SiteView>::empty());
                assert(site_views(required@).to_set() =~= req1 + related_sites(cs, ch, true, true));
                assert(site_views(satisfied@).to_set() =~= sat0 + related_sites(cs, ch, false, true));
                assert(site_views(missing@).to_set() =~= mis1 + related_sites(cs, ch, false, false));
            }
        },
        None => {
            assert(site_views(required@).to_set() =~= req1 + related_sites(cs, ch, true, true));
            assert(site_views(satisfied@).to_set() =~= sat0 + related_sites(cs, ch, false, true));
            assert(site_views(missing@).to_set() =~= mis1 + related_sites(cs, ch, false, false));
        },
    }
    proof {
        lemma_site_order_strict();
        lemma_sorted_set_by_of(site_views(required@), site_order());
        lemma_sorted_set_by_of(site_views(satisfied@), site_order());
        lemma_sorted_set_by_of(site_views(missing@), site_order());
        crate::grouping::lemma_sorted_set_of(files.deep_view());
        crate::grouping::lemma_sorted_set_of(variants.deep_view());
    }
    let complete = missing.len() == 0;
    assert(complete == (domain_missing(domains@, *d, ss@, cs, ch) == Set::<SiteView>::empty())) by {
        if missing@.len() > 0 {
            assert(site_views(missing@).to_set().contains(site_views(missing@)[0]));
        } else {
            assert(site_views(missing@).to_set() =~= Set::<SiteView>::empty());
        }
    }
    let summary = match concept {
        Some(c) => domain_summary_text(c.id.as_str(), d.variants.len(), complete, &variants),
        None => {
            let mut label = d.symbol_name.clone();
            if shared_symbol(domains, d) {
                label.append(" (");
                label.append(file_of_domain(d));
                label.append(")");
            }
            domain_summary_text(label.as_str(), d.variants.len(), complete, &variants)
        },
    };
    let id = match concept {
        Some(c) => {
            let mut id = c.id.clone();
            id.append("::");
            id.append(d.symbol_name.as_str());
            id
        },
        None => {
            let mut id = "closed_domain::".to_string();
            id.append(d.symbol_name.as_str());
            id
        },
    };
    let origin = obligation_report_origin(concept.is_some());
    let severity = obligation_report_severity("closed_domain_exhaustiveness", origin, variants.len());
    proof {
        reveal_strlit("closed_domain_exhaustiveness");
    }
    let burden = required.len();
    let missing_count = missing.len();
    ObligationReport {
        id,
        kind: "closed_domain_exhaustiveness".to_string(),
        concept_id: match concept {
            Some(c) => Some(c.id.clone()),
            None => None,
        },
        domain_symbol_name: Some(d.symbol_name.clone()),
        origin,
        trust_tier: obligation_report_trust_tier(origin),
        confidence: obligation_report_confidence(origin),
        severity,
        score_0_10000: obligation_report_score(severity, origin, missing_count),
        summary,
        files,
        required_sites: required,
        satisfied_sites: satisfied,
        missing_sites: missing,
        missing_variants: variants,
        context_burden: burden,
    }
}

/// The concept governs the domain: the domain's symbol is one of the
/// concept's target symbols or a member of one.
pub open spec fn concept_domain_matches(c: ConceptRule, d: ClosedDomain) -> bool {
    matches_any_target(d.symbol_name@, concept_target_symbols(c))
}

/// A concept's obligation on `d` is in scope: always in full scope; in
/// changed scope when a changed file is the domain's file, is governed by the
/// concept, or holds a site that names the domain.
pub open spec fn domain_in_scope(
    c: ConceptRule,
    d: ClosedDomain,
    ss: Seq<ExhaustivenessSite>,
    scope: ObligationScope,
    changed: Seq<Text>,
) -> bool {
    ||| scope == ObligationScope::All
    ||| (changed.len() > 0 && (changed.contains(d.path@) || patterns_touch(concept_paths(c), changed) || exists|i: int|
        0 <= i < ss.len() && (#[trigger] ss[i]).domain_symbol_name@ == d.symbol_name@ && changed.contains(ss[i].path@)))
}

/// Whether a concept's obligation on `d` is in scope (see `domain_in_scope`).
pub fn domain_is_in_scope(
    c: &ConceptRule,
    d: &ClosedDomain,
    semantic: &SemanticSnapshot,
    scope: ObligationScope,
    changed: &Vec<String>,
) -> (r: bool)
    ensures
        r == domain_in_scope(*c, *d, semantic.closed_domain_sites@, scope, changed.deep_view()),
{
    if scope == ObligationScope::All {
        return true;
    }
    if changed.len() == 0 {
        return false;
    }
    if texts_contain(changed, d.path.as_str()) {
        return true;
    }
    let paths = concept_rule_paths(c);
    if patterns_touch_changed(&paths, changed) {
        return true;
    }
    let ghost ss = semantic.closed_domain_sites@;
    let mut i: usize = 0;
    while i < semantic.closed_domain_sites.len()
        invariant
            i <= ss.len(),
            ss == semantic.closed_domain_sites@,
            forall|k: int|
                0 <= k < i ==> !((#[trigger] ss[k]).domain_symbol_name@ == d.symbol_name@ && changed.deep_view().contains(
                    ss[k].path@,
                )),
        decreases ss.len() - i,
    {
        let site = &semantic.closed_domain_sites[i];
        if crate::text::text_eq(site.domain_symbol_name.as_str(), d.symbol_name.as_str()) && texts_contain(
            changed,
            site.path.as_str(),
        ) {
            return true;
        }
        i = i + 1;
    }
    false
}

/// An inferred domain is small enough to act on and has a production site.
pub open spec fn domain_actionable(ds: Seq<ClosedDomain>, d: ClosedDomain, ss: Seq<ExhaustivenessSite>) -> bool {
    d.variants@.len() <= 16 && has_relevant_site(ds, d, ss, true)
}

/// An inferred domain relates to the change: some file changed, and it is
/// the domain's file or holds a production site of the domain.
pub open spec fn domain_related_to_change(ds: Seq<ClosedDomain>, d: ClosedDomain, ss: Seq<ExhaustivenessSite>, changed: Seq<Text>) -> bool {
    changed.len() > 0 && (changed.contains(d.path@) || exists|i: int|
        0 <= i < ss.len() && site_relevant(ds, d, #[trigger] ss[i], true) && changed.contains(ss[i].path@))
}

/// Whether an inferred domain can be acted on (see `domain_actionable`).
pub fn zero_config_domain_is_actionable(d: &ClosedDomain, semantic: &SemanticSnapshot) -> (r: bool)
    ensures
        r == domain_actionable(semantic.closed_domains@, *d, semantic.closed_domain_sites@),
{
    if d.variants.len() > 16 {
        return false;
    }
    let ghost ss = semantic.closed_domain_sites@;
    let mut i: usize = 0;
    while i < semantic.closed_domain_sites.len()
        invariant
            i <= ss.len(),
            ss == semantic.closed_domain_sites@,
            d.variants@.len() <= 16,
            forall|k: int| 0 <= k < i ==> !site_relevant(semantic.closed_domains@, *d, #[trigger] ss[k], true),
        decreases ss.len() - i,
    {
        let site = &semantic.closed_domain_sites[i];
        if crate::text::text_eq(site.domain_symbol_name.as_str(), d.symbol_name.as_str()) && !site_claimed_elsewhere(
            &semantic.closed_domains,
            d,
            site,
        ) && !is_test_file(site.path.as_str()) {
            assert(site_relevant(semantic.closed_domains@, *d, ss[i as int], true));
            return true;
        }
        i = i + 1;
    }
    false
}

/// Whether an inferred domain relates to the change (see `domain_related_to_change`).
pub fn zero_config_domain_is_related_to_changed_files(d: &ClosedDomain, semantic: &SemanticSnapshot, changed: &Vec<String>) -> (r:
    bool)
    ensures
        r == domain_related_to_change(semantic.closed_domains@, *d, semantic.closed_domain_sites@, changed.deep_view()),
{
    if changed.len() == 0 {
        return false;
    }
    if texts_contain(changed, d.path.as_str()) {
        return true;
    }
    let ghost ss = semantic.closed_domain_sites@;
    let mut i: usize = 0;
    while i < semantic.closed_domain_sites.len()
        invariant
            i <= ss.len(),
            ss == semantic.closed_domain_sites@,
            forall|k: int|
                0 <= k < i ==> !(site_relevant(semantic.closed_domains@, *d, #[trigger] ss[k], true) && changed.deep_view().contains(ss[k].path@)),
        decreases ss.len() - i,
    {
        let site = &semantic.closed_domain_sites[i];
        if crate::text::text_eq(site.domain_symbol_name.as_str(), d.symbol_name.as_str()) && !site_claimed_elsewhere(
            &semantic.closed_domains,
            d,
            site,
        ) && !is_test_file(site.path.as_str()) && texts_contain(changed, site.path.as_str()) {
            assert(site_relevant(semantic.closed_domains@, *d, ss[i as int], true));
            return true;
        }
        i = i + 1;
    }
    false
}

} // verus!
