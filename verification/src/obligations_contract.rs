//! Contract obligations: the surfaces a declared contract requires, which of
//! them a change updated, and which are missing altogether.
use crate::obligations::{
    copy_site, obligation_report_confidence, obligation_report_origin, obligation_report_score,
    obligation_report_severity, obligation_report_trust_tier, obligation_score, ObligationConfidence, ObligationOrigin,
    ObligationReport, ObligationScope, ObligationSite, ObligationTrustTier, SiteView,
};
use crate::FindingSeverity;
use crate::grouping::sorted_set;
use crate::obligations_domain::{pattern_touches, patterns_touch, patterns_touch_changed};
use crate::text::join;
use crate::site_set::{
    is_strict_order, lemma_site_lt_irreflexive, lemma_site_lt_total, lemma_site_lt_transitive, site_lt, site_views,
    sorted_by, site_order,
};
use crate::semantic::{
    path_from_scoped_value, scope_split, symbol_from_scoped_path, ContractRule, SemanticFileFact, SemanticSnapshot,
    SymbolFact,
};
use crate::site_set::{lemma_site_order_strict, lemma_sorted_set_by_of, site_set_insert, sorted_set_by};
use crate::obligations_domain::{concept_paths, concept_rule_paths};
use crate::order::{sorted_insert, strictly_sorted};
use crate::paths::{is_test_file, is_test_path};
use crate::semantic::{scoped_symbol, RulesConfig};
use crate::structural::utils::{lower_text, to_ascii_lower};
use crate::text::{contains, contains_text, dec, push_line, Text};
use vstd::prelude::*;

verus! {

/// The name under which a missing surface of the given kind is summarised.
pub open spec fn site_label(kind: Text) -> Text {
    if kind == "browser_entry"@ {
        "browser runtime entry"@
    } else if kind == "electron_entry"@ {
        "electron runtime entry"@
    } else if kind == "registry_symbol"@ {
        "registry"@
    } else if kind == "payload_map_symbol"@ {
        "payload map"@
    } else if kind == "categories_symbol"@ {
        "categories"@
    } else if kind == "required_symbol"@ {
        "required symbol"@
    } else if kind == "required_file"@ {
        "required file"@
    } else {
        "declared contract"@
    }
}

fn site_label_str(kind: &str) -> (r: &'static str)
    ensures
        r@ == site_label(kind@),
{
    proof {
        reveal_strlit("browser_entry");
        reveal_strlit("electron_entry");
        reveal_strlit("registry_symbol");
        reveal_strlit("payload_map_symbol");
        reveal_strlit("categories_symbol");
        reveal_strlit("required_symbol");
        reveal_strlit("required_file");
    }
    if crate::text::text_eq(kind, "browser_entry") {
        "browser runtime entry"
    } else if crate::text::text_eq(kind, "electron_entry") {
        "electron runtime entry"
    } else if crate::text::text_eq(kind, "registry_symbol") {
        "registry"
    } else if crate::text::text_eq(kind, "payload_map_symbol") {
        "payload map"
    } else if crate::text::text_eq(kind, "categories_symbol") {
        "categories"
    } else if crate::text::text_eq(kind, "required_symbol") {
        "required symbol"
    } else if crate::text::text_eq(kind, "required_file") {
        "required file"
    } else {
        "declared contract"
    }
}

/// The texts in order of first occurrence, each once.
pub open spec fn first_occurrences(s: Seq<Text>) -> Seq<Text>
    decreases s.len(),
{
    if s.len() == 0 {
        Seq::empty()
    } else {
        let prev = first_occurrences(s.drop_last());
        if prev.contains(s.last()) {
            prev
        } else {
            prev.push(s.last())
        }
    }
}

/// The labels of the missing sites, in order of first occurrence.
pub open spec fn missing_labels(sites: Seq<SiteView>) -> Seq<Text> {
    first_occurrences(sites.map_values(|v: SiteView| site_label(v.1)))
}

proof fn lemma_first_occurrences_nonempty(s: Seq<Text>)
    requires
        s.len() > 0,
    ensures
        first_occurrences(s).len() > 0,
    decreases s.len(),
{
    if s.drop_last().len() > 0 {
        lemma_first_occurrences_nonempty(s.drop_last());
    }
}

/// How the missing surfaces of a contract are named: one label, two labels,
/// or the first two labels and how many others.
pub open spec fn missing_summary(labels: Seq<Text>) -> Text {
    if labels.len() == 1 {
        "the "@ + labels[0] + " surface"@
    } else if labels.len() == 2 {
        "the "@ + labels[0] + " and "@ + labels[1] + " surfaces"@
    } else {
        "the "@ + labels[0] + ", "@ + labels[1] + " and "@ + dec((labels.len() - 2) as nat)
            + " other required surfaces"@
    }
}

/// Names the missing surfaces of a contract by their labels, each label once
/// (see `missing_summary`).
pub fn summarize_contract_missing_sites(missing_sites: &Vec<ObligationSite>) -> (r: String)
    requires
        missing_sites@.len() > 0,
    ensures
        r@ == missing_summary(missing_labels(missing_sites@.map_values(|s: ObligationSite| s@))),
{
    let ghost views = missing_sites@.map_values(|s: ObligationSite| s@);
    let ghost all_labels = views.map_values(|v: SiteView| site_label(v.1));
    let mut labels: Vec<String> = Vec::new();
    let mut i: usize = 0;
    while i < missing_sites.len()
        invariant
            i <= missing_sites@.len(),
            views == missing_sites@.map_values(|s: ObligationSite| s@),
            all_labels == views.map_values(|v: SiteView| site_label(v.1)),
            labels.deep_view() == first_occurrences(all_labels.take(i as int)),
        decreases missing_sites@.len() - i,
    {
        let label = site_label_str(missing_sites[i].kind.as_str());
        assert(all_labels.take(i as int + 1).drop_last() =~= all_labels.take(i as int));
        assert(all_labels.take(i as int + 1).last() == label@);
        if !crate::order::texts_contain(&labels, label) {
            let ghost before = labels.deep_view();
            push_line(&mut labels, label.to_string());
            assert(labels.deep_view() =~= before.push(label@));
        }
        i = i + 1;
    }
    assert(all_labels.take(missing_sites@.len() as int) =~= all_labels);
    proof {
        lemma_first_occurrences_nonempty(all_labels);
    }
    let mut r = "the ".to_string();
    r.append(labels[0].as_str());
    if labels.len() == 1 {
        r.append(" surface");
    } else if labels.len() == 2 {
        r.append(" and ");
        r.append(labels[1].as_str());
        r.append(" surfaces");
    } else {
        r.append(", ");
        r.append(labels[1].as_str());
        r.append(" and ");
        let n = crate::text::decimal((labels.len() - 2) as u64);
        r.append(n.as_str());
        r.append(" other required surfaces");
    }
    r
}

/// A marker of a surface that crosses a process or persistence boundary.
pub open spec fn has_risk_marker(t: Text) -> bool {
    ||| contains_text(t, "adapter"@)
    ||| contains_text(t, "browser"@)
    ||| contains_text(t, "client"@)
    ||| contains_text(t, "desktop"@)
    ||| contains_text(t, "electron"@)
    ||| contains_text(t, "hydrate"@)
    ||| contains_text(t, "ipc"@)
    ||| contains_text(t, "persist"@)
    ||| contains_text(t, "restore"@)
    ||| contains_text(t, "rpc"@)
    ||| contains_text(t, "serialize"@)
    ||| contains_text(t, "server"@)
    ||| contains_text(t, "session"@)
    ||| contains_text(t, "transport"@)
    ||| contains_text(t, "websocket"@)
    ||| contains_text(t, "ws"@)
}

fn risk_marker_in(t: &str) -> (r: bool)
    ensures
        r == has_risk_marker(t@),
{
    contains(t, "adapter") || contains(t, "browser") || contains(t, "client") || contains(t, "desktop") || contains(
        t,
        "electron",
    ) || contains(t, "hydrate") || contains(t, "ipc") || contains(t, "persist") || contains(t, "restore") || contains(
        t,
        "rpc",
    ) || contains(t, "serialize") || contains(t, "server") || contains(t, "session") || contains(t, "transport")
        || contains(t, "websocket") || contains(t, "ws")
}

/// A site whose path or detail (in lower case) names a boundary.
pub open spec fn has_boundary_risk(v: SiteView) -> bool {
    has_risk_marker(lower_text(v.0)) || has_risk_marker(lower_text(v.3))
}

/// How early a contract site is listed: runtime entries, then the registry,
/// then payload maps and categories, then required symbols and files (those
/// at a boundary first), then the rest.
pub open spec fn site_priority(v: SiteView) -> int {
    if v.1 == "browser_entry"@ || v.1 == "electron_entry"@ {
        0
    } else if v.1 == "registry_symbol"@ {
        1
    } else if v.1 == "payload_map_symbol"@ || v.1 == "categories_symbol"@ {
        2
    } else if v.1 == "required_symbol"@ || v.1 == "required_file"@ {
        if has_boundary_risk(v) {
            3
        } else {
            4
        }
    } else {
        5
    }
}

fn site_priority_of(s: &ObligationSite) -> (r: u8)
    ensures
        r as int == site_priority(s@),
{
    let k = s.kind.as_str();
    if crate::text::text_eq(k, "browser_entry") || crate::text::text_eq(k, "electron_entry") {
        0
    } else if crate::text::text_eq(k, "registry_symbol") {
        1
    } else if crate::text::text_eq(k, "payload_map_symbol") || crate::text::text_eq(k, "categories_symbol") {
        2
    } else if crate::text::text_eq(k, "required_symbol") || crate::text::text_eq(k, "required_file") {
        let lp = to_ascii_lower(s.path.as_str());
        let ld = to_ascii_lower(s.detail.as_str());
        if risk_marker_in(lp.as_str()) || risk_marker_in(ld.as_str()) {
            3
        } else {
            4
        }
    } else {
        5
    }
}

/// Contract sites compare by priority, then as sites do.
pub open spec fn contract_site_lt(a: SiteView, b: SiteView) -> bool {
    site_priority(a) < site_priority(b) || (site_priority(a) == site_priority(b) && site_lt(a, b))
}

/// The contract site order as a value.
pub open spec fn contract_site_order() -> spec_fn(SiteView, SiteView) -> bool {
    |a: SiteView, b: SiteView| contract_site_lt(a, b)
}

/// The contract site order is a strict order.
pub proof fn lemma_contract_site_order_strict()
    ensures
        is_strict_order(contract_site_order()),
{
    assert forall|a: SiteView| !#[trigger] contract_site_order()(a, a) by {
        lemma_site_lt_irreflexive(a);
    }
    assert forall|a: SiteView, b: SiteView, c: SiteView|
        #[trigger] contract_site_order()(a, b) && #[trigger] contract_site_order()(b, c) implies contract_site_order()(
        a,
        c,
    ) by {
        if site_priority(a) == site_priority(b) && site_priority(b) == site_priority(c) {
            lemma_site_lt_transitive(a, b, c);
        }
    }
}

/// The sites of a site-ordered list, reordered by priority; sites of equal
/// priority keep their order.
fn order_by_priority(sites: &Vec<ObligationSite>) -> (r: Vec<ObligationSite>)
    requires
        sorted_by(site_views(sites@), site_order()),
    ensures
        sorted_by(site_views(r@), contract_site_order()),
        site_views(r@).to_set() == site_views(sites@).to_set(),
{
    let ghost src = site_views(sites@);
    let mut r: Vec<ObligationSite> = Vec::new();
    let mut p: u8 = 0;
    assert(site_views(r@) =~= Seq::<SiteView>::empty());
    while p < 6
        invariant
            p <= 6,
            src == site_views(sites@),
            sorted_by(src, site_order()),
            sorted_by(site_views(r@), contract_site_order()),
            forall|k: int| 0 <= k < r@.len() ==> site_priority(#[trigger] site_views(r@)[k]) < p,
            site_views(r@).to_set() == src.to_set().filter(|v: SiteView| site_priority(v) < p),
        decreases 6 - p,
    {
        let ghost base = site_views(r@);
        let mut j: usize = 0;
        while j < sites.len()
            invariant
                p < 6,
                j <= src.len(),
                src == site_views(sites@),
                sorted_by(src, site_order()),
                sorted_by(site_views(r@), contract_site_order()),
                base.len() <= r@.len(),
                forall|k: int| 0 <= k < base.len() ==> #[trigger] site_views(r@)[k] == base[k],
                forall|k: int| 0 <= k < base.len() ==> site_priority(#[trigger] base[k]) < p,
                forall|k: int|
                    base.len() <= k < r@.len() ==> site_priority(#[trigger] site_views(r@)[k]) == p && exists|q: int|
                        0 <= q < j && src[q] == site_views(r@)[k],
                site_views(r@).to_set() == base.to_set() + src.take(j as int).to_set().filter(
                    |v: SiteView| site_priority(v) == p,
                ),
            decreases src.len() - j,
        {
            let ghost before = site_views(r@);
            assert(src[j as int] == sites@[j as int]@);
            if site_priority_of(&sites[j]) == p {
                r.push(copy_site(&sites[j]));
                let ghost after = site_views(r@);
                assert(after =~= before.push(src[j as int]));
                assert forall|a: int, b: int| 0 <= a < b < after.len() implies #[trigger] contract_site_order()(
                    after[a],
                    after[b],
                ) by {
                    if b == after.len() - 1 {
                        if a >= base.len() {
                            let q = choose|q: int| 0 <= q < j && src[q] == before[a];
                            assert(site_order()(src[q], src[j as int]));
                        }
                    } else {
                        assert(contract_site_order()(before[a], before[b]));
                    }
                }
                assert forall|k: int| base.len() <= k < after.len() implies site_priority(#[trigger] after[k]) == p
                    && exists|q: int| 0 <= q < j + 1 && src[q] == after[k] by {
                    if k < after.len() - 1 {
                        let q = choose|q: int| 0 <= q < j && src[q] == before[k];
                        assert(src[q] == after[k]);
                    } else {
                        assert(src[j as int] == after[k]);
                    }
                }
                proof {
                    before.lemma_push_to_set_commute(src[j as int]);
                }
            }
            assert(src.take(j as int + 1) =~= src.take(j as int).push(src[j as int]));
            proof {
                src.take(j as int).lemma_push_to_set_commute(src[j as int]);
            }
            assert(site_views(r@).to_set() =~= base.to_set() + src.take(j as int + 1).to_set().filter(
                |v: SiteView| site_priority(v) == p,
            ));
            j = j + 1;
        }
        assert(src.take(src.len() as int) =~= src);
        assert(site_views(r@).to_set() =~= src.to_set().filter(|v: SiteView| site_priority(v) < p + 1));
        assert forall|k: int| 0 <= k < r@.len() implies site_priority(#[trigger] site_views(r@)[k]) < p + 1 by {
            if k < base.len() {
                assert(site_views(r@)[k] == base[k]);
            }
        }
        p = p + 1;
    }
    assert(site_views(r@).to_set() =~= src.to_set()) by {
        assert forall|v: SiteView| src.to_set().contains(v) implies site_priority(v) < 6 by {}
    }
    r
}

/// A surface a contract names: its scoped symbol or path, the kind of site,
/// and what the site asks when the surface exists.
pub type Target = (Text, Text, Text);

/// The target of an optional surface.
pub open spec fn option_target(o: Option<String>, kind: Text, detail: Text) -> Seq<Target> {
    match o {
        Some(v) => seq![(v@, kind, detail)],
        None => Seq::empty(),
    }
}

/// The targets of a list of surfaces.
pub open spec fn list_targets(vs: Seq<Text>, kind: Text, detail: Text) -> Seq<Target> {
    vs.map_values(|v: Text| (v, kind, detail))
}

/// The symbol surfaces a contract requires: categories, payload map,
/// registry, then its required symbols.
pub open spec fn symbol_targets(c: ContractRule) -> Seq<Target> {
    option_target(c.categories_symbol, "categories_symbol"@, "update categories symbol"@) + option_target(
        c.payload_map_symbol,
        "payload_map_symbol"@,
        "update payload map symbol"@,
    ) + option_target(c.registry_symbol, "registry_symbol"@, "update registry symbol"@) + list_targets(
        c.required_symbols.deep_view(),
        "required_symbol"@,
        "update required contract symbol"@,
    )
}

/// The file surfaces a contract requires: the browser and electron entries,
/// then its required files.
pub open spec fn file_targets(c: ContractRule) -> Seq<Target> {
    option_target(c.browser_entry, "browser_entry"@, "update browser runtime entry"@) + option_target(
        c.electron_entry,
        "electron_entry"@,
        "update electron runtime entry"@,
    ) + list_targets(c.required_files.deep_view(), "required_file"@, "update required contract file"@)
}

fn push_option_target(out: &mut Vec<(String, String, String)>, o: &Option<String>, kind: &str, detail: &str)
    ensures
        final(out).deep_view() == old(out).deep_view() + option_target(*o, kind@, detail@),
{
    let ghost before = out.deep_view();
    match o {
        Some(v) => {
            out.push((v.clone(), kind.to_string(), detail.to_string()));
            assert(out.deep_view() =~= before + option_target(*o, kind@, detail@));
        },
        None => {
            assert(out.deep_view() =~= before + option_target(*o, kind@, detail@));
        },
    }
}

fn push_list_targets(out: &mut Vec<(String, String, String)>, vs: &Vec<String>, kind: &str, detail: &str)
    ensures
        final(out).deep_view() == old(out).deep_view() + list_targets(vs.deep_view(), kind@, detail@),
{
    let ghost before = out.deep_view();
    let mut i: usize = 0;
    while i < vs.len()
        invariant
            i <= vs@.len(),
            out.deep_view() == before + list_targets(vs.deep_view().take(i as int), kind@, detail@),
        decreases vs@.len() - i,
    {
        let ghost prev = out.deep_view();
        let entry = (vs[i].clone(), kind.to_string(), detail.to_string());
        assert(entry.deep_view() == (vs@[i as int]@, kind@, detail@));
        out.push(entry);
        assert(out.deep_view() =~= prev.push((vs@[i as int]@, kind@, detail@)));
        assert(list_targets(vs.deep_view().take(i as int + 1), kind@, detail@) =~= list_targets(
            vs.deep_view().take(i as int),
            kind@,
            detail@,
        ).push((vs@[i as int]@, kind@, detail@)));
        assert(out.deep_view() =~= before + list_targets(vs.deep_view().take(i as int + 1), kind@, detail@));
        i = i + 1;
    }
    assert(vs.deep_view().take(vs@.len() as int) =~= vs.deep_view());
}

fn contract_symbol_targets(c: &ContractRule) -> (r: Vec<(String, String, String)>)
    ensures
        r.deep_view() == symbol_targets(*c),
{
    let mut r: Vec<(String, String, String)> = Vec::new();
    assert(r.deep_view() =~= Seq::<Target>::empty());
    push_option_target(&mut r, &c.categories_symbol, "categories_symbol", "update categories symbol");
    push_option_target(&mut r, &c.payload_map_symbol, "payload_map_symbol", "update payload map symbol");
    push_option_target(&mut r, &c.registry_symbol, "registry_symbol", "update registry symbol");
    push_list_targets(&mut r, &c.required_symbols, "required_symbol", "update required contract symbol");
    assert(r.deep_view() =~= symbol_targets(*c));
    r
}

fn contract_file_targets(c: &ContractRule) -> (r: Vec<(String, String, String)>)
    ensures
        r.deep_view() == file_targets(*c),
{
    let mut r: Vec<(String, String, String)> = Vec::new();
    assert(r.deep_view() =~= Seq::<Target>::empty());
    push_option_target(&mut r, &c.browser_entry, "browser_entry", "update browser runtime entry");
    push_option_target(&mut r, &c.electron_entry, "electron_entry", "update electron runtime entry");
    push_list_targets(&mut r, &c.required_files, "required_file", "update required contract file");
    assert(r.deep_view() =~= file_targets(*c));
    r
}

/// The symbol at position `i` is `name`, declared in `path`.
pub open spec fn symbol_at(syms: Seq<SymbolFact>, i: int, path: Text, name: Text) -> bool {
    syms[i].path@ == path && syms[i].name@ == name
}

/// Some symbol `name` is declared in `path`.
pub open spec fn symbol_declared(syms: Seq<SymbolFact>, path: Text, name: Text) -> bool {
    exists|i: int| 0 <= i < syms.len() && symbol_at(syms, i, path, name)
}

/// The position of the first declaration of `name` in `path`.
pub open spec fn first_symbol(syms: Seq<SymbolFact>, path: Text, name: Text) -> int {
    choose|i: int|
        0 <= i < syms.len() && symbol_at(syms, i, path, name) && forall|j: int| 0 <= j < i ==> !symbol_at(syms, j, path, name)
}

/// The line of the first declaration of `name` in `path`, if any.
pub open spec fn declared_line(syms: Seq<SymbolFact>, path: Text, name: Text) -> Option<u32> {
    if symbol_declared(syms, path, name) {
        Some(syms[first_symbol(syms, path, name)].line)
    } else {
        None
    }
}

/// The detail of a declared surface that the semantic facts lack.
pub open spec fn missing_site_detail(target: Text) -> Text {
    "declared contract site is missing from semantic snapshot: "@ + target
}

/// The site of a symbol surface (`path::name`): at the symbol's first
/// declaration, or flagged as missing; none where the surface is not scoped.
pub open spec fn symbol_site(syms: Seq<SymbolFact>, t: Target) -> Option<SiteView> {
    match scope_split(t.0) {
        Some(i) => {
            let path = t.0.take(i);
            let name = t.0.skip(i + 2);
            Some(
                (
                    path,
                    t.1,
                    declared_line(syms, path, name),
                    if symbol_declared(syms, path, name) {
                        t.2
                    } else {
                        missing_site_detail(name)
                    },
                ),
            )
        },
        None => None,
    }
}

/// Some file fact is `path`.
pub open spec fn file_present(files: Seq<SemanticFileFact>, path: Text) -> bool {
    exists|i: int| 0 <= i < files.len() && (#[trigger] files[i]).path@ == path
}

/// The site of a file surface: as declared, or flagged as missing.
pub open spec fn file_site(files: Seq<SemanticFileFact>, t: Target) -> SiteView {
    (t.0, t.1, None, if file_present(files, t.0) { t.2 } else { missing_site_detail(t.0) })
}

/// The sites a contract requires.
pub open spec fn required_contract_sites(c: ContractRule, semantic: SemanticSnapshot) -> Set<SiteView> {
    Set::new(
        |v: SiteView|
            (exists|k: int|
                0 <= k < symbol_targets(c).len() && symbol_site(semantic.symbols@, #[trigger] symbol_targets(c)[k])
                    == Some(v)) || (exists|k: int|
                0 <= k < file_targets(c).len() && v == file_site(semantic.files@, #[trigger] file_targets(c)[k])),
    )
}

pub fn symbol_line(syms: &Vec<SymbolFact>, path: &str, name: &str) -> (r: Option<u32>)
    ensures
        r == declared_line(syms@, path@, name@),
{
    let mut i: usize = 0;
    while i < syms.len()
        invariant
            i <= syms@.len(),
            forall|j: int| 0 <= j < i ==> !symbol_at(syms@, j, path@, name@),
        decreases syms@.len() - i,
    {
        if crate::text::text_eq(syms[i].path.as_str(), path) && crate::text::text_eq(syms[i].name.as_str(), name) {
            assert(symbol_at(syms@, i as int, path@, name@));
            let ghost k = first_symbol(syms@, path@, name@);
            assert(k == i) by {
                if k < i {
                    assert(!symbol_at(syms@, k, path@, name@));
                }
                if k > i {
                    assert(!symbol_at(syms@, i as int, path@, name@));
                }
            }
            return Some(syms[i].line);
        }
        i = i + 1;
    }
    None
}

fn file_is_present(files: &Vec<SemanticFileFact>, path: &str) -> (r: bool)
    ensures
        r == file_present(files@, path@),
{
    let mut i: usize = 0;
    while i < files.len()
        invariant
            i <= files@.len(),
            forall|j: int| 0 <= j < i ==> (#[trigger] files@[j]).path@ != path@,
        decreases files@.len() - i,
    {
        if crate::text::text_eq(files[i].path.as_str(), path) {
            return true;
        }
        i = i + 1;
    }
    false
}

fn contract_symbol_site(syms: &Vec<SymbolFact>, target: &(String, String, String)) -> (r: Option<ObligationSite>)
    ensures
        match r {
            Some(s) => symbol_site(syms@, target.deep_view()) == Some(s@),
            None => symbol_site(syms@, target.deep_view()) is None,
        },
{
    let scoped = target.0.as_str();
    match symbol_from_scoped_path(scoped) {
        Some(name) => {
            let path = path_from_scoped_value(scoped);
            let line = symbol_line(syms, path.as_str(), name.as_str());
            let detail = if line.is_some() {
                target.2.clone()
            } else {
                let mut d = "declared contract site is missing from semantic snapshot: ".to_string();
                d.append(name.as_str());
                d
            };
            Some(ObligationSite { path, kind: target.1.clone(), line, detail })
        },
        None => None,
    }
}

fn contract_file_site(files: &Vec<SemanticFileFact>, target: &(String, String, String)) -> (r: ObligationSite)
    ensures
        r@ == file_site(files@, target.deep_view()),
{
    let present = file_is_present(files, target.0.as_str());
    let detail = if present {
        target.2.clone()
    } else {
        let mut d = "declared contract site is missing from semantic snapshot: ".to_string();
        d.append(target.0.as_str());
        d
    };
    ObligationSite { path: target.0.clone(), kind: target.1.clone(), line: None, detail }
}

/// The sites a contract requires, in contract site order.
fn contract_required_sites(c: &ContractRule, semantic: &SemanticSnapshot) -> (r: Vec<ObligationSite>)
    ensures
        site_views(r@) == sorted_set_by(required_contract_sites(*c, *semantic), contract_site_order()),
{
    let st = contract_symbol_targets(c);
    let ft = contract_file_targets(c);
    let ghost sts = st.deep_view();
    let ghost fts = ft.deep_view();
    let ghost syms = semantic.symbols@;
    let ghost files = semantic.files@;
    let mut sites: Vec<ObligationSite> = Vec::new();
    assert(site_views(sites@) =~= Seq::<SiteView>::empty());
    let mut i: usize = 0;
    while i < st.len()
        invariant
            i <= sts.len(),
            sts == st.deep_view(),
            syms == semantic.symbols@,
            sorted_by(site_views(sites@), site_order()),
            site_views(sites@).to_set() == Set::new(
                |v: SiteView| exists|k: int| 0 <= k < i && symbol_site(syms, #[trigger] sts[k]) == Some(v),
            ),
        decreases sts.len() - i,
    {
        assert(sts[i as int] == st@[i as int].deep_view());
        let ghost before = site_views(sites@).to_set();
        match contract_symbol_site(&semantic.symbols, &st[i]) {
            Some(site) => {
                site_set_insert(&mut sites, &site);
            },
            None => {},
        }
        assert(site_views(sites@).to_set() =~= Set::new(
            |v: SiteView| exists|k: int| 0 <= k < i + 1 && symbol_site(syms, #[trigger] sts[k]) == Some(v),
        )) by {
            assert forall|v: SiteView|
                Set::new(|v: SiteView| exists|k: int| 0 <= k < i + 1 && symbol_site(syms, #[trigger] sts[k]) == Some(v)).contains(
                    v,
                ) implies site_views(sites@).to_set().contains(v) by {
                let k = choose|k: int| 0 <= k < i + 1 && symbol_site(syms, #[trigger] sts[k]) == Some(v);
                if k < i {
                    assert(before.contains(v));
                }
            }
        }
        i = i + 1;
    }
    let ghost sym_part = site_views(sites@).to_set();
    let mut j: usize = 0;
    while j < ft.len()
        invariant
            j <= fts.len(),
            fts == ft.deep_view(),
            files == semantic.files@,
            sorted_by(site_views(sites@), site_order()),
            site_views(sites@).to_set() == sym_part + Set::new(
                |v: SiteView| exists|k: int| 0 <= k < j && v == file_site(files, #[trigger] fts[k]),
            ),
        decreases fts.len() - j,
    {
        assert(fts[j as int] == ft@[j as int].deep_view());
        let site = contract_file_site(&semantic.files, &ft[j]);
        site_set_insert(&mut sites, &site);
        assert(site_views(sites@).to_set() =~= sym_part + Set::new(
            |v: SiteView| exists|k: int| 0 <= k < j + 1 && v == file_site(files, #[trigger] fts[k]),
        ));
        j = j + 1;
    }
    assert(site_views(sites@).to_set() =~= required_contract_sites(*c, *semantic));
    let r = order_by_priority(&sites);
    proof {
        lemma_contract_site_order_strict();
        lemma_sorted_set_by_of(site_views(r@), contract_site_order());
    }
    r
}

/// Adds every string of `src` to the ordered set `dst`.
fn insert_all(dst: &mut Vec<String>, src: &Vec<String>)
    requires
        strictly_sorted(old(dst).deep_view()),
    ensures
        strictly_sorted(final(dst).deep_view()),
        final(dst).deep_view().to_set() == old(dst).deep_view().to_set() + src.deep_view().to_set(),
{
    let ghost start = dst.deep_view().to_set();
    let mut i: usize = 0;
    while i < src.len()
        invariant
            i <= src@.len(),
            strictly_sorted(dst.deep_view()),
            dst.deep_view().to_set() == start + src.deep_view().take(i as int).to_set(),
        decreases src@.len() - i,
    {
        sorted_insert(dst, src[i].as_str());
        assert(src.deep_view().take(i as int + 1) =~= src.deep_view().take(i as int).push(src@[i as int]@));
        proof {
            src.deep_view().take(i as int).lemma_push_to_set_commute(src@[i as int]@);
        }
        assert(dst.deep_view().to_set() =~= start + src.deep_view().take(i as int + 1).to_set());
        i = i + 1;
    }
    assert(src.deep_view().take(src@.len() as int) =~= src.deep_view());
}

/// The scoped symbols whose change triggers a contract: its required symbol
/// surfaces, then its trigger symbols.
pub open spec fn trigger_symbols(c: ContractRule) -> Seq<Text> {
    symbol_targets(c).map_values(|t: Target| t.0) + c.trigger_symbols.deep_view()
}

/// The files whose change triggers a contract: its required file surfaces,
/// then its trigger files.
pub open spec fn trigger_files(c: ContractRule) -> Seq<Text> {
    file_targets(c).map_values(|t: Target| t.0) + c.trigger_files.deep_view()
}

/// The path part of a scoped value, where it has one.
pub open spec fn scoped_path_part(v: Text) -> Option<Text> {
    match scope_split(v) {
        Some(i) => Some(v.take(i)),
        None => None,
    }
}

/// The paths of the trigger symbols.
pub open spec fn trigger_symbol_paths(c: ContractRule) -> Set<Text> {
    Set::new(|p: Text| exists|k: int| 0 <= k < trigger_symbols(c).len() && scoped_path_part(#[trigger] trigger_symbols(c)[k]) == Some(p))
}

/// The names of the trigger symbols.
pub open spec fn trigger_symbol_names(c: ContractRule) -> Set<Text> {
    Set::new(|n: Text| exists|k: int| 0 <= k < trigger_symbols(c).len() && scoped_symbol(#[trigger] trigger_symbols(c)[k]) == Some(n))
}

/// The production paths that a concept of the contract's id governs.
pub open spec fn concept_trigger_paths(config: RulesConfig, c: ContractRule) -> Set<Text> {
    Set::new(
        |p: Text|
            exists|i: int|
                0 <= i < config.concept@.len() && (#[trigger] config.concept@[i]).id@ == c.id@ && concept_paths(
                    config.concept@[i],
                ).contains(p) && !is_test_path(p),
    )
}

/// `candidate` is the symbol `name` or one of its members.
pub open spec fn contract_symbol_matches(name: Text, candidate: Text) -> bool {
    candidate == name || (name + "."@).is_prefix_of(candidate)
}

/// `candidate` is one of the names or a member of one.
pub open spec fn names_match(names: Set<Text>, candidate: Text) -> bool {
    exists|n: Text| names.contains(n) && contract_symbol_matches(n, candidate)
}

/// The production files that read, write or declare a trigger symbol.
pub open spec fn semantic_trigger_paths(c: ContractRule, semantic: SemanticSnapshot) -> Set<Text> {
    let names = trigger_symbol_names(c);
    Set::new(
        |p: Text|
            !is_test_path(p) && ((exists|i: int|
                0 <= i < semantic.reads@.len() && (#[trigger] semantic.reads@[i]).path@ == p && names_match(
                    names,
                    semantic.reads@[i].symbol_name@,
                )) || (exists|i: int|
                0 <= i < semantic.writes@.len() && (#[trigger] semantic.writes@[i]).path@ == p && names_match(
                    names,
                    semantic.writes@[i].symbol_name@,
                )) || (exists|i: int|
                0 <= i < semantic.symbols@.len() && (#[trigger] semantic.symbols@[i]).path@ == p && names_match(
                    names,
                    semantic.symbols@[i].name@,
                ))),
    )
}

/// Every path whose change triggers a contract.
pub open spec fn trigger_path_set(config: RulesConfig, c: ContractRule, semantic: SemanticSnapshot) -> Set<Text> {
    trigger_symbol_paths(c) + trigger_files(c).to_set() + concept_trigger_paths(config, c) + semantic_trigger_paths(
        c,
        semantic,
    )
}

fn contract_trigger_symbols(c: &ContractRule) -> (r: Vec<String>)
    ensures
        r.deep_view() == trigger_symbols(*c),
{
    let st = contract_symbol_targets(c);
    let mut r: Vec<String> = Vec::new();
    let mut i: usize = 0;
    let ghost sts = st.deep_view();
    while i < st.len()
        invariant
            i <= sts.len(),
            sts == st.deep_view(),
            r.deep_view() == sts.take(i as int).map_values(|t: Target| t.0),
        decreases sts.len() - i,
    {
        assert(sts[i as int] == st@[i as int].deep_view());
        push_line(&mut r, st[i].0.clone());
        assert(r.deep_view() =~= sts.take(i as int + 1).map_values(|t: Target| t.0));
        i = i + 1;
    }
    assert(sts.take(sts.len() as int) =~= sts);
    let mut j: usize = 0;
    let ghost head = r.deep_view();
    while j < c.trigger_symbols.len()
        invariant
            j <= c.trigger_symbols@.len(),
            r.deep_view() == head + c.trigger_symbols.deep_view().take(j as int),
        decreases c.trigger_symbols@.len() - j,
    {
        push_line(&mut r, c.trigger_symbols[j].clone());
        assert(r.deep_view() =~= head + c.trigger_symbols.deep_view().take(j as int + 1));
        j = j + 1;
    }
    assert(c.trigger_symbols.deep_view().take(c.trigger_symbols@.len() as int) =~= c.trigger_symbols.deep_view());
    r
}

fn contract_trigger_files(c: &ContractRule) -> (r: Vec<String>)
    ensures
        r.deep_view() == trigger_files(*c),
{
    let ft = contract_file_targets(c);
    let mut r: Vec<String> = Vec::new();
    let mut i: usize = 0;
    let ghost fts = ft.deep_view();
    while i < ft.len()
        invariant
            i <= fts.len(),
            fts == ft.deep_view(),
            r.deep_view() == fts.take(i as int).map_values(|t: Target| t.0),
        decreases fts.len() - i,
    {
        assert(fts[i as int] == ft@[i as int].deep_view());
        push_line(&mut r, ft[i].0.clone());
        assert(r.deep_view() =~= fts.take(i as int + 1).map_values(|t: Target| t.0));
        i = i + 1;
    }
    assert(fts.take(fts.len() as int) =~= fts);
    let mut j: usize = 0;
    let ghost head = r.deep_view();
    while j < c.trigger_files.len()
        invariant
            j <= c.trigger_files@.len(),
            r.deep_view() == head + c.trigger_files.deep_view().take(j as int),
        decreases c.trigger_files@.len() - j,
    {
        push_line(&mut r, c.trigger_files[j].clone());
        assert(r.deep_view() =~= head + c.trigger_files.deep_view().take(j as int + 1));
        j = j + 1;
    }
    assert(c.trigger_files.deep_view().take(c.trigger_files@.len() as int) =~= c.trigger_files.deep_view());
    r
}

/// Whether `candidate` is one of the names or a member of one.
fn names_match_any(names: &Vec<String>, candidate: &str) -> (r: bool)
    ensures
        r == names_match(names.deep_view().to_set(), candidate@),
{
    let mut i: usize = 0;
    while i < names.len()
        invariant
            i <= names@.len(),
            forall|k: int| 0 <= k < i ==> !contract_symbol_matches(#[trigger] names.deep_view()[k], candidate@),
        decreases names@.len() - i,
    {
        let dotted = crate::text::concat(names[i].as_str(), ".");
        if crate::text::text_eq(candidate, names[i].as_str()) || crate::text::starts_with(candidate, dotted.as_str()) {
            assert(contract_symbol_matches(names.deep_view()[i as int], candidate@));
            assert(names.deep_view().to_set().contains(names.deep_view()[i as int]));
            return true;
        }
        i = i + 1;
    }
    assert forall|n: Text| names.deep_view().to_set().contains(n) implies !contract_symbol_matches(n, candidate@) by {
        let k = choose|k: int| 0 <= k < names.deep_view().len() && names.deep_view()[k] == n;
    }
    false
}

/// Every path whose change triggers a contract, in increasing order.
fn contract_trigger_paths(config: &RulesConfig, c: &ContractRule, semantic: &SemanticSnapshot) -> (r: Vec<String>)
    ensures
        strictly_sorted(r.deep_view()),
        r.deep_view().to_set() == trigger_path_set(*config, *c, *semantic),
{
    let ts = contract_trigger_symbols(c);
    let ghost tss = ts.deep_view();
    let mut paths: Vec<String> = Vec::new();
    let mut names: Vec<String> = Vec::new();
    let mut i: usize = 0;
    assert(paths.deep_view().to_set() =~= Set::<Text>::empty());
    assert(names.deep_view().to_set() =~= Set::<Text>::empty());
    while i < ts.len()
        invariant
            i <= tss.len(),
            tss == ts.deep_view(),
            strictly_sorted(paths.deep_view()),
            strictly_sorted(names.deep_view()),
            paths.deep_view().to_set() == Set::new(
                |p: Text| exists|k: int| 0 <= k < i && scoped_path_part(#[trigger] tss[k]) == Some(p),
            ),
            names.deep_view().to_set() == Set::new(
                |n: Text| exists|k: int| 0 <= k < i && scoped_symbol(#[trigger] tss[k]) == Some(n),
            ),
        decreases tss.len() - i,
    {
        assert(tss[i as int] == ts@[i as int]@);
        match symbol_from_scoped_path(ts[i].as_str()) {
            Some(name) => {
                let path = path_from_scoped_value(ts[i].as_str());
                sorted_insert(&mut paths, path.as_str());
                sorted_insert(&mut names, name.as_str());
            },
            None => {},
        }
        assert(paths.deep_view().to_set() =~= Set::new(
            |p: Text| exists|k: int| 0 <= k < i + 1 && scoped_path_part(#[trigger] tss[k]) == Some(p),
        ));
        assert(names.deep_view().to_set() =~= Set::new(
            |n: Text| exists|k: int| 0 <= k < i + 1 && scoped_symbol(#[trigger] tss[k]) == Some(n),
        ));
        i = i + 1;
    }
    assert(paths.deep_view().to_set() =~= trigger_symbol_paths(*c));
    assert(names.deep_view().to_set() =~= trigger_symbol_names(*c));
    let files = contract_trigger_files(c);
    insert_all(&mut paths, &files);
    let ghost part2 = paths.deep_view().to_set();
    let mut q: usize = 0;
    while q < config.concept.len()
        invariant
            q <= config.concept@.len(),
            strictly_sorted(paths.deep_view()),
            paths.deep_view().to_set() == part2 + Set::new(
                |p: Text|
                    exists|i: int|
                        0 <= i < q && (#[trigger] config.concept@[i]).id@ == c.id@ && concept_paths(config.concept@[i]).contains(p)
                            && !is_test_path(p),
            ),
        decreases config.concept@.len() - q,
    {
        let ghost before = paths.deep_view().to_set();
        if crate::text::text_eq(config.concept[q].id.as_str(), c.id.as_str()) {
            let cp = concept_rule_paths(&config.concept[q]);
            let mut k: usize = 0;
            while k < cp.len()
                invariant
                    k <= cp@.len(),
                    strictly_sorted(paths.deep_view()),
                    paths.deep_view().to_set() == before + Set::new(
                        |p: Text| exists|m: int| 0 <= m < k && #[trigger] cp.deep_view()[m] == p && !is_test_path(p),
                    ),
                decreases cp@.len() - k,
            {
                assert(cp.deep_view()[k as int] == cp@[k as int]@);
                if !is_test_file(cp[k].as_str()) {
                    sorted_insert(&mut paths, cp[k].as_str());
                }
                assert(paths.deep_view().to_set() =~= before + Set::new(
                    |p: Text| exists|m: int| 0 <= m < k + 1 && #[trigger] cp.deep_view()[m] == p && !is_test_path(p),
                ));
                k = k + 1;
            }
            assert(paths.deep_view().to_set() =~= part2 + Set::new(
                |p: Text|
                    exists|i: int|
                        0 <= i < q + 1 && (#[trigger] config.concept@[i]).id@ == c.id@ && concept_paths(config.concept@[i]).contains(p)
                            && !is_test_path(p),
            )) by {
                assert forall|p: Text| paths.deep_view().to_set().contains(p) implies (part2 + Set::new(
                    |p: Text|
                        exists|i: int|
                            0 <= i < q + 1 && (#[trigger] config.concept@[i]).id@ == c.id@ && concept_paths(config.concept@[i]).contains(p)
                                && !is_test_path(p),
                )).contains(p) by {
                    if !before.contains(p) {
                        let m = choose|m: int| 0 <= m < cp@.len() && #[trigger] cp.deep_view()[m] == p && !is_test_path(p);
                        assert(concept_paths(config.concept@[q as int]).contains(p));
                    }
                }
                assert forall|p: Text| (part2 + Set::new(
                    |p: Text|
                        exists|i: int|
                            0 <= i < q + 1 && (#[trigger] config.concept@[i]).id@ == c.id@ && concept_paths(config.concept@[i]).contains(p)
                                && !is_test_path(p),
                )).contains(p) implies paths.deep_view().to_set().contains(p) by {
                    if !part2.contains(p) && !before.contains(p) {
                        let i = choose|i: int|
                            0 <= i < q + 1 && (#[trigger] config.concept@[i]).id@ == c.id@ && concept_paths(config.concept@[i]).contains(p)
                                && !is_test_path(p);
                        assert(i == q);
                        let m = choose|m: int| 0 <= m < cp.deep_view().len() && cp.deep_view()[m] == p;
                    }
                }
            }
        } else {
            assert(paths.deep_view().to_set() =~= part2 + Set::new(
                |p: Text|
                    exists|i: int|
                        0 <= i < q + 1 && (#[trigger] config.concept@[i]).id@ == c.id@ && concept_paths(config.concept@[i]).contains(p)
                            && !is_test_path(p),
            ));
        }
        q = q + 1;
    }
    assert(paths.deep_view().to_set() =~= trigger_symbol_paths(*c) + trigger_files(*c).to_set() + concept_trigger_paths(
        *config,
        *c,
    ));
    let ghost part3 = paths.deep_view().to_set();
    let ghost nm = names.deep_view().to_set();
    let mut a: usize = 0;
    while a < semantic.reads.len()
        invariant
            a <= semantic.reads@.len(),
            strictly_sorted(paths.deep_view()),
            nm == names.deep_view().to_set(),
            paths.deep_view().to_set() == part3 + Set::new(
                |p: Text|
                    !is_test_path(p) && exists|i: int|
                        0 <= i < a && (#[trigger] semantic.reads@[i]).path@ == p && names_match(nm, semantic.reads@[i].symbol_name@),
            ),
        decreases semantic.reads@.len() - a,
    {
        let rd = &semantic.reads[a];
        if !is_test_file(rd.path.as_str()) && names_match_any(&names, rd.symbol_name.as_str()) {
            sorted_insert(&mut paths, rd.path.as_str());
        }
        assert(paths.deep_view().to_set() =~= part3 + Set::new(
            |p: Text|
                !is_test_path(p) && exists|i: int|
                    0 <= i < a + 1 && (#[trigger] semantic.reads@[i]).path@ == p && names_match(nm, semantic.reads@[i].symbol_name@),
        ));
        a = a + 1;
    }
    let ghost part4 = paths.deep_view().to_set();
    let mut b: usize = 0;
    while b < semantic.writes.len()
        invariant
            b <= semantic.writes@.len(),
            strictly_sorted(paths.deep_view()),
            nm == names.deep_view().to_set(),
            paths.deep_view().to_set() == part4 + Set::new(
                |p: Text|
                    !is_test_path(p) && exists|i: int|
                        0 <= i < b && (#[trigger] semantic.writes@[i]).path@ == p && names_match(nm, semantic.writes@[i].symbol_name@),
            ),
        decreases semantic.writes@.len() - b,
    {
        let wr = &semantic.writes[b];
        if !is_test_file(wr.path.as_str()) && names_match_any(&names, wr.symbol_name.as_str()) {
            sorted_insert(&mut paths, wr.path.as_str());
        }
        assert(paths.deep_view().to_set() =~= part4 + Set::new(
            |p: Text|
                !is_test_path(p) && exists|i: int|
                    0 <= i < b + 1 && (#[trigger] semantic.writes@[i]).path@ == p && names_match(nm, semantic.writes@[i].symbol_name@),
        ));
        b = b + 1;
    }
    let ghost part5 = paths.deep_view().to_set();
    let mut d: usize = 0;
    while d < semantic.symbols.len()
        invariant
            d <= semantic.symbols@.len(),
            strictly_sorted(paths.deep_view()),
            nm == names.deep_view().to_set(),
            paths.deep_view().to_set() == part5 + Set::new(
                |p: Text|
                    !is_test_path(p) && exists|i: int|
                        0 <= i < d && (#[trigger] semantic.symbols@[i]).path@ == p && names_match(nm, semantic.symbols@[i].name@),
            ),
        decreases semantic.symbols@.len() - d,
    {
        let sy = &semantic.symbols[d];
        if !is_test_file(sy.path.as_str()) && names_match_any(&names, sy.name.as_str()) {
            sorted_insert(&mut paths, sy.path.as_str());
        }
        assert(paths.deep_view().to_set() =~= part5 + Set::new(
            |p: Text|
                !is_test_path(p) && exists|i: int|
                    0 <= i < d + 1 && (#[trigger] semantic.symbols@[i]).path@ == p && names_match(nm, semantic.symbols@[i].name@),
        ));
        d = d + 1;
    }
    assert(paths.deep_view().to_set() =~= trigger_path_set(*config, *c, *semantic));
    paths
}

/// A site flagged as missing from the semantic facts.
pub open spec fn is_structurally_missing(v: SiteView) -> bool {
    "declared contract site is missing"@.is_prefix_of(v.3)
}

/// A required site counts as updated: it exists and, where a change
/// triggered the contract in changed scope, its file changed.
pub open spec fn contract_site_updated(v: SiteView, strict: bool, changed: Seq<Text>) -> bool {
    !is_structurally_missing(v) && (!strict || changed.contains(v.0))
}

/// The sites that are updated (`updated`) or not (`!updated`), in order.
pub open spec fn sites_where(s: Seq<SiteView>, strict: bool, changed: Seq<Text>, updated: bool) -> Seq<SiteView>
    decreases s.len(),
{
    if s.len() == 0 {
        Seq::empty()
    } else {
        let prev = sites_where(s.drop_last(), strict, changed, updated);
        if contract_site_updated(s.last(), strict, changed) == updated {
            prev.push(s.last())
        } else {
            prev
        }
    }
}

/// The trigger paths that select a changed file, in order.
pub open spec fn touched_triggers(paths: Seq<Text>, changed: Seq<Text>) -> Seq<Text>
    decreases paths.len(),
{
    if paths.len() == 0 {
        Seq::empty()
    } else {
        let prev = touched_triggers(paths.drop_last(), changed);
        if pattern_touches(paths.last(), changed) {
            prev.push(paths.last())
        } else {
            prev
        }
    }
}

/// The summary of a contract obligation.
pub open spec fn contract_summary(id: Text, missing: Seq<SiteView>, touched: Seq<Text>) -> Text {
    if missing.len() == 0 {
        "Contract '"@ + id + "' is fully updated across all required surfaces"@
    } else if touched.len() > 0 {
        "Contract '"@ + id + "' changed in "@ + join(touched, ", "@) + " but "@ + missing_summary(missing_labels(missing))
            + " were not updated"@
    } else {
        "Contract '"@ + id + "' is missing "@ + missing_summary(missing_labels(missing))
    }
}

/// The contract's trigger paths, in order.
pub open spec fn contract_trigger_list(config: RulesConfig, c: ContractRule, semantic: SemanticSnapshot) -> Seq<Text> {
    sorted_set(trigger_path_set(config, c, semantic))
}

/// The contract's required sites, in contract site order.
pub open spec fn contract_required_list(c: ContractRule, semantic: SemanticSnapshot) -> Seq<SiteView> {
    sorted_set_by(required_contract_sites(c, semantic), contract_site_order())
}

/// A change triggered the contract: some trigger path selects a changed file.
pub open spec fn contract_triggered(config: RulesConfig, c: ContractRule, semantic: SemanticSnapshot, changed: Seq<Text>) -> bool {
    changed.len() > 0 && patterns_touch(contract_trigger_list(config, c, semantic), changed)
}

/// Updates are demanded of every site: the scope is the change and a change
/// triggered the contract.
pub open spec fn contract_strict(
    config: RulesConfig,
    c: ContractRule,
    semantic: SemanticSnapshot,
    scope: ObligationScope,
    changed: Seq<Text>,
) -> bool {
    scope == ObligationScope::Changed && contract_triggered(config, c, semantic, changed)
}

/// A contract is reported: it requires some site, and some site is missing
/// altogether or a change in changed scope triggered it.
pub open spec fn contract_obligation_due(
    config: RulesConfig,
    c: ContractRule,
    semantic: SemanticSnapshot,
    scope: ObligationScope,
    changed: Seq<Text>,
) -> bool {
    let req = contract_required_list(c, semantic);
    &&& req.len() > 0
    &&& (exists|i: int| 0 <= i < req.len() && is_structurally_missing(#[trigger] req[i])) || contract_strict(
        config,
        c,
        semantic,
        scope,
        changed,
    )
}

/// `r` is the surface-completeness obligation of the contract `c`.
pub open spec fn is_contract_obligation(
    r: ObligationReport,
    config: RulesConfig,
    c: ContractRule,
    semantic: SemanticSnapshot,
    scope: ObligationScope,
    changed: Seq<Text>,
) -> bool {
    let tp = contract_trigger_list(config, c, semantic);
    let req = contract_required_list(c, semantic);
    let strict = contract_strict(config, c, semantic, scope, changed);
    let missing = sites_where(req, strict, changed, false);
    &&& r.id@ == "contract::"@ + c.id@
    &&& r.kind@ == "contract_surface_completeness"@
    &&& r.concept_id is Some && r.concept_id->0@ == c.id@
    &&& r.domain_symbol_name is None
    &&& r.origin == ObligationOrigin::Explicit
    &&& r.trust_tier == ObligationTrustTier::Trusted
    &&& r.confidence == ObligationConfidence::High
    &&& r.severity == FindingSeverity::High
    &&& r.score_0_10000 == obligation_score(FindingSeverity::High, ObligationOrigin::Explicit, missing.len() as usize)
    &&& r.summary@ == contract_summary(c.id@, missing, touched_triggers(tp, changed))
    &&& r.files.deep_view() == sorted_set(
        req.map_values(|v: SiteView| v.0).to_set() + trigger_path_set(config, c, semantic),
    )
    &&& site_views(r.required_sites@) == req
    &&& site_views(r.satisfied_sites@) == sites_where(req, strict, changed, true)
    &&& site_views(r.missing_sites@) == missing
    &&& r.missing_variants@.len() == 0
    &&& r.context_burden == req.len()
}

fn touched_trigger_list(paths: &Vec<String>, changed: &Vec<String>) -> (r: Vec<String>)
    ensures
        r.deep_view() == touched_triggers(paths.deep_view(), changed.deep_view()),
{
    let mut r: Vec<String> = Vec::new();
    let mut i: usize = 0;
    while i < paths.len()
        invariant
            i <= paths@.len(),
            r.deep_view() == touched_triggers(paths.deep_view().take(i as int), changed.deep_view()),
        decreases paths@.len() - i,
    {
        assert(paths.deep_view().take(i as int + 1).drop_last() =~= paths.deep_view().take(i as int));
        assert(paths.deep_view().take(i as int + 1).last() == paths@[i as int]@);
        let ghost before = r.deep_view();
        if crate::obligations_domain::pattern_touches_changed(paths[i].as_str(), changed) {
            push_line(&mut r, paths[i].clone());
            assert(r.deep_view() =~= before.push(paths@[i as int]@));
        }
        i = i + 1;
    }
    assert(paths.deep_view().take(paths@.len() as int) =~= paths.deep_view());
    r
}

fn split_sites(req: &Vec<ObligationSite>, strict: bool, changed: &Vec<String>) -> (r: (Vec<ObligationSite>, Vec<ObligationSite>))
    ensures
        site_views(r.0@) == sites_where(site_views(req@), strict, changed.deep_view(), true),
        site_views(r.1@) == sites_where(site_views(req@), strict, changed.deep_view(), false),
{
    let ghost rv = site_views(req@);
    let ghost ch = changed.deep_view();
    let mut sat: Vec<ObligationSite> = Vec::new();
    let mut mis: Vec<ObligationSite> = Vec::new();
    let mut i: usize = 0;
    assert(site_views(sat@) =~= Seq::<SiteView>::empty());
    assert(site_views(mis@) =~= Seq::<SiteView>::empty());
    while i < req.len()
        invariant
            i <= rv.len(),
            rv == site_views(req@),
            ch == changed.deep_view(),
            site_views(sat@) == sites_where(rv.take(i as int), strict, ch, true),
            site_views(mis@) == sites_where(rv.take(i as int), strict, ch, false),
        decreases rv.len() - i,
    {
        let site = &req[i];
        assert(rv.take(i as int + 1).drop_last() =~= rv.take(i as int));
        assert(rv.take(i as int + 1).last() == site@);
        let flagged = crate::text::starts_with(site.detail.as_str(), "declared contract site is missing");
        let updated = !flagged && (!strict || crate::order::texts_contain(changed, site.path.as_str()));
        assert(updated == contract_site_updated(site@, strict, ch));
        let ghost sb = site_views(sat@);
        let ghost mb = site_views(mis@);
        if updated {
            sat.push(copy_site(site));
            assert(site_views(sat@) =~= sb.push(site@));
        } else {
            mis.push(copy_site(site));
            assert(site_views(mis@) =~= mb.push(site@));
        }
        i = i + 1;
    }
    assert(rv.take(rv.len() as int) =~= rv);
    (sat, mis)
}

fn contract_summary_text(id: &str, missing: &Vec<ObligationSite>, touched: &Vec<String>) -> (r: String)
    ensures
        r@ == contract_summary(id@, site_views(missing@), touched.deep_view()),
{
    let mut r = "Contract '".to_string();
    r.append(id);
    if missing.len() == 0 {
        r.append("' is fully updated across all required surfaces");
        return r;
    }
    assert(site_views(missing@) =~= missing@.map_values(|s: ObligationSite| s@));
    let ms = summarize_contract_missing_sites(missing);
    if touched.len() > 0 {
        r.append("' changed in ");
        let j = crate::text::join_texts(touched, ", ");
        r.append(j.as_str());
        r.append(" but ");
        r.append(ms.as_str());
        r.append(" were not updated");
    } else {
        r.append("' is missing ");
        r.append(ms.as_str());
    }
    r
}

/// The surface-completeness obligation of a contract, where it is due (see
/// `contract_obligation_due`).
pub fn build_contract_obligation(
    config: &RulesConfig,
    c: &ContractRule,
    semantic: &SemanticSnapshot,
    scope: ObligationScope,
    changed: &Vec<String>,
) -> (r: Option<ObligationReport>)
    ensures
        match r {
            Some(o) => contract_obligation_due(*config, *c, *semantic, scope, changed.deep_view()) && is_contract_obligation(
                o,
                *config,
                *c,
                *semantic,
                scope,
                changed.deep_view(),
            ),
            None => !contract_obligation_due(*config, *c, *semantic, scope, changed.deep_view()),
        },
{
    let ghost ch = changed.deep_view();
    let trigger_paths = contract_trigger_paths(config, c, semantic);
    proof {
        crate::grouping::lemma_sorted_set_of(trigger_paths.deep_view());
    }
    let triggered = changed.len() > 0 && patterns_touch_changed(&trigger_paths, changed);
    let required = contract_required_sites(c, semantic);
    let ghost req = site_views(required@);
    if required.len() == 0 {
        return None;
    }
    let mut any_flagged = false;
    let mut i: usize = 0;
    while i < required.len()
        invariant
            i <= required@.len(),
            req == site_views(required@),
            any_flagged == exists|k: int| 0 <= k < i && is_structurally_missing(#[trigger] req[k]),
        decreases required@.len() - i,
    {
        assert(req[i as int] == required@[i as int]@);
        if crate::text::starts_with(required[i].detail.as_str(), "declared contract site is missing") {
            any_flagged = true;
        }
        i = i + 1;
    }
    let strict = scope == ObligationScope::Changed && triggered;
    if !any_flagged && !strict {
        return None;
    }
    let mut files: Vec<String> = Vec::new();
    let mut k: usize = 0;
    assert(files.deep_view().to_set() =~= Set::<Text>::empty());
    while k < required.len()
        invariant
            k <= required@.len(),
            req == site_views(required@),
            strictly_sorted(files.deep_view()),
            files.deep_view().to_set() == req.take(k as int).map_values(|v: SiteView| v.0).to_set(),
        decreases required@.len() - k,
    {
        sorted_insert(&mut files, required[k].path.as_str());
        assert(req.take(k as int + 1).map_values(|v: SiteView| v.0) =~= req.take(k as int).map_values(|v: SiteView| v.0).push(
            required@[k as int].path@,
        ));
        proof {
            req.take(k as int).map_values(|v: SiteView| v.0).lemma_push_to_set_commute(required@[k as int].path@);
        }
        k = k + 1;
    }
    assert(req.take(req.len() as int) =~= req);
    insert_all(&mut files, &trigger_paths);
    proof {
        crate::grouping::lemma_sorted_set_of(files.deep_view());
    }
    let (satisfied, missing) = split_sites(&required, strict, changed);
    let touched = touched_trigger_list(&trigger_paths, changed);
    let summary = contract_summary_text(c.id.as_str(), &missing, &touched);
    let origin = obligation_report_origin(true);
    let severity = obligation_report_severity("contract_surface_completeness", origin, missing.len());
    let mut id = "contract::".to_string();
    id.append(c.id.as_str());
    let burden = required.len();
    let missing_count = missing.len();
    assert(triggered == contract_triggered(*config, *c, *semantic, ch));
    assert(strict == contract_strict(*config, *c, *semantic, scope, ch));
    assert(req == contract_required_list(*c, *semantic));
    assert(req.len() > 0);
    assert(any_flagged ==> exists|k: int| 0 <= k < req.len() && is_structurally_missing(#[trigger] req[k]));
    assert(contract_obligation_due(*config, *c, *semantic, scope, ch));
    assert(site_views(missing@).len() == missing@.len());
    Some(ObligationReport {
        id,
        kind: "contract_surface_completeness".to_string(),
        concept_id: Some(c.id.clone()),
        domain_symbol_name: None,
        origin,
        trust_tier: obligation_report_trust_tier(origin),
        confidence: obligation_report_confidence(origin),
        severity,
        score_0_10000: obligation_report_score(severity, origin, missing_count),
        summary,
        files,
        required_sites: required,
        satisfied_sites: satisfied,
        missing_sites: missing,
        missing_variants: Vec::new(),
        context_burden: burden,
    })
}

} // verus!
